//! Column values and the map from column names to values that carries a
//! row to and from the store.

use vstd::prelude::*;
use crate::error::Error;

verus! {

/// The value of one column.
#[derive(Debug, PartialEq, Eq)]
pub enum Value {
    /// No value: the column is null.
    Empty,
    /// An 8-bit integer.
    TinyInt(i8),
    /// A 32-bit integer.
    Int(i32),
    /// Bytes.
    Blob(Vec<u8>),
    /// Text.
    Text(String),
}

/// What a [`Value`] holds.
pub enum ValueView {
    Empty,
    TinyInt(i8),
    Int(i32),
    Blob(Seq<u8>),
    Text(Seq<char>),
}

impl View for Value {
    type V = ValueView;

    open spec fn view(&self) -> ValueView {
        match *self {
            Value::Empty => ValueView::Empty,
            Value::TinyInt(v) => ValueView::TinyInt(v),
            Value::Int(v) => ValueView::Int(v),
            Value::Blob(v) => ValueView::Blob(v@),
            Value::Text(v) => ValueView::Text(v@),
        }
    }
}

impl Clone for Value {
    /// A copy of the value.
    fn clone(&self) -> (copy: Value)
        ensures
            copy@ == self@,
    {
        match self {
            Value::Empty => Value::Empty,
            Value::TinyInt(v) => Value::TinyInt(*v),
            Value::Int(v) => Value::Int(*v),
            Value::Blob(v) => Value::Blob(v.clone()),
            Value::Text(v) => Value::Text(v.clone()),
        }
    }
}

/// The views of the values of a row as it comes back from the store: one per
/// column asked for, `None` where the column is null.
pub open spec fn row_view(row: Seq<Option<Value>>) -> Seq<Option<ValueView>> {
    row.map_values(
        |v: Option<Value>|
            match v {
                Some(x) => Some(x@),
                None => None,
            },
    )
}

/// Named values, as a sequence of pairs.
pub type Pairs = Seq<(Seq<char>, ValueView)>;

/// No name occurs twice in `cols`.
pub open spec fn distinct(cols: Pairs) -> bool {
    forall|i: int, j: int| 0 <= i < j < cols.len() ==> cols[i].0 != cols[j].0
}

/// Some pair of `cols` is named `name`.
pub open spec fn is_set(cols: Pairs, name: Seq<char>) -> bool {
    exists|i: int| 0 <= i < cols.len() && cols[i].0 == name
}

/// The place of a pair named `name`, where there is one.
pub open spec fn slot(cols: Pairs, name: Seq<char>) -> int {
    choose|i: int| 0 <= i < cols.len() && cols[i].0 == name
}

/// The value named `name`, if any.
pub open spec fn find(cols: Pairs, name: Seq<char>) -> Option<ValueView> {
    if is_set(cols, name) {
        Some(cols[slot(cols, name)].1)
    } else {
        None
    }
}

/// `cols` with `name` set to `value`: in place where the name is there
/// already, at the end where it is new.
pub open spec fn put(cols: Pairs, name: Seq<char>, value: ValueView) -> Pairs {
    if is_set(cols, name) {
        cols.update(slot(cols, name), (name, value))
    } else {
        cols.push((name, value))
    }
}

/// `cols` after each of `fields` is set, in turn, to the value at its place in
/// `row`; a null becomes [`ValueView::Empty`].
pub open spec fn put_row(cols: Pairs, fields: Seq<Seq<char>>, row: Seq<Option<ValueView>>) -> Pairs
    recommends
        fields.len() == row.len(),
    decreases fields.len(),
{
    if fields.len() == 0 || row.len() == 0 {
        cols
    } else {
        put(
            put_row(cols, fields.drop_last(), row.drop_last()),
            fields.last(),
            match row.last() {
                Some(v) => v,
                None => ValueView::Empty,
            },
        )
    }
}

/// `cols` after each pair of `sets` was set in it, in turn.
pub open spec fn put_all(cols: Pairs, sets: Pairs) -> Pairs
    decreases sets.len(),
{
    if sets.len() == 0 {
        cols
    } else {
        put(put_all(cols, sets.drop_last()), sets.last().0, sets.last().1)
    }
}

/// Setting a name keeps the names distinct.
pub proof fn lemma_put_distinct(cols: Pairs, name: Seq<char>, value: ValueView)
    requires
        distinct(cols),
    ensures
        distinct(put(cols, name, value)),
        is_set(put(cols, name, value), name),
        find(put(cols, name, value), name) == Some(value),
        forall|other: Seq<char>|
            other != name ==> #[trigger] find(put(cols, name, value), other) == find(cols, other),
{
    let after = put(cols, name, value);
    if is_set(cols, name) {
        let k = slot(cols, name);
        assert(after[k].0 == name);
        assert forall|other: Seq<char>| other != name implies #[trigger] find(after, other)
            == find(cols, other) by {
            if is_set(cols, other) {
                let j = slot(cols, other);
                assert(after[j].0 == other);
                let j2 = slot(after, other);
                assert(cols[j2].0 == other);
            } else if is_set(after, other) {
                let j2 = slot(after, other);
                assert(cols[j2].0 == other);
            }
        }
    } else {
        let k = cols.len() as int;
        assert(after[k].0 == name);
        assert(slot(after, name) == k);
        assert forall|other: Seq<char>| other != name implies #[trigger] find(after, other)
            == find(cols, other) by {
            if is_set(cols, other) {
                let j = slot(cols, other);
                assert(after[j].0 == other);
                let j2 = slot(after, other);
                assert(cols[j2].0 == other);
            } else if is_set(after, other) {
                let j2 = slot(after, other);
                assert(cols[j2].0 == other);
            }
        }
    }
}

/// In pairs with distinct names, a name stands at one place only.
pub proof fn lemma_slot_unique(cols: Pairs, k: int)
    requires
        distinct(cols),
        0 <= k < cols.len(),
    ensures
        is_set(cols, cols[k].0),
        slot(cols, cols[k].0) == k,
        find(cols, cols[k].0) == Some(cols[k].1),
{
    let p = slot(cols, cols[k].0);
    assert(cols[p].0 == cols[k].0);
}

/// After `sets` were set in `cols`, a name holds what `sets` holds for it,
/// and what `cols` held where `sets` has no such name.
pub proof fn lemma_put_all(cols: Pairs, sets: Pairs, name: Seq<char>)
    requires
        distinct(cols),
        distinct(sets),
    ensures
        distinct(put_all(cols, sets)),
        find(put_all(cols, sets), name) == if is_set(sets, name) {
            find(sets, name)
        } else {
            find(cols, name)
        },
    decreases sets.len(),
{
    if sets.len() > 0 {
        let front = sets.drop_last();
        let n = sets.len() - 1;
        let last = sets.last();
        assert(distinct(front)) by {
            assert forall|i: int, j: int| 0 <= i < j < front.len() implies front[i].0
                != front[j].0 by {
                assert(sets[i].0 != sets[j].0);
            }
        }
        lemma_put_all(cols, front, name);
        lemma_put_distinct(put_all(cols, front), last.0, last.1);
        lemma_slot_unique(sets, n);
        if name != last.0 {
            if is_set(front, name) {
                let k = slot(front, name);
                assert(sets[k] == front[k]);
                lemma_slot_unique(sets, k);
                lemma_slot_unique(front, k);
            } else if is_set(sets, name) {
                let k = slot(sets, name);
                assert(front[k] == sets[k]);
            }
        }
    }
}

/// A map from column names to values. It keeps the names in the order in
/// which they were first set.
#[derive(Debug)]
pub struct ColumnsMap {
    entries: Vec<(String, Value)>,
}

impl View for ColumnsMap {
    type V = Pairs;

    closed spec fn view(&self) -> Pairs {
        self.entries@.map_values(|e: (String, Value)| (e.0@, e.1@))
    }
}

impl ColumnsMap {
    /// No name occurs twice in a map.
    #[verifier::type_invariant]
    pub open spec fn names_distinct(&self) -> bool {
        distinct(self@)
    }

    /// An empty map.
    pub fn new() -> (cols: ColumnsMap)
        ensures
            cols@.len() == 0,
    {
        ColumnsMap { entries: Vec::new() }
    }

    /// An empty map with room for `capacity` columns.
    pub fn with_capacity(capacity: usize) -> (cols: ColumnsMap)
        ensures
            cols@.len() == 0,
    {
        ColumnsMap { entries: Vec::with_capacity(capacity) }
    }

    /// The number of columns.
    pub fn len(&self) -> (n: usize)
        ensures
            n == self@.len(),
    {
        self.entries.len()
    }

    /// The place of the column named `key`.
    fn position(&self, key: &str) -> (at: Option<usize>)
        ensures
            at is Some <==> is_set(self@, key@),
            at matches Some(i) ==> i < self@.len() && self@[i as int].0 == key@ && i == slot(
                self@,
                key@,
            ),
    {
        proof {
            use_type_invariant(self);
        }
        let mut i: usize = 0;
        while i < self.entries.len()
            invariant
                i <= self.entries.len(),
                distinct(self@),
                forall|j: int| 0 <= j < i ==> self@[j].0 != key@,
            decreases self.entries.len() - i,
        {
            if self.entries[i].0.as_str().eq(key) {
                assert(self@[i as int].0 == key@);
                assert(self@[slot(self@, key@)].0 == key@);
                return Some(i);
            }
            i += 1;
        }
        None
    }

    /// Whether a column named `key` is there.
    pub fn has(&self, key: &str) -> (r: bool)
        ensures
            r == is_set(self@, key@),
    {
        self.position(key).is_some()
    }

    /// The value of the column named `key`.
    pub fn get(&self, key: &str) -> (value: Option<&Value>)
        ensures
            match value {
                Some(v) => find(self@, key@) == Some(v@),
                None => find(self@, key@) is None,
            },
    {
        match self.position(key) {
            Some(i) => Some(&self.entries[i].1),
            None => None,
        }
    }

    /// The name and the value of the column at place `i`.
    pub fn entry(&self, i: usize) -> (e: (&String, &Value))
        requires
            i < self@.len(),
        ensures
            e.0@ == self@[i as int].0,
            e.1@ == self@[i as int].1,
    {
        (&self.entries[i].0, &self.entries[i].1)
    }

    /// Sets the column named `key` to `value`.
    pub fn set(&mut self, key: &str, value: Value)
        ensures
            final(self)@ == put(old(self)@, key@, value@),
    {
        proof {
            use_type_invariant(&*self);
            lemma_put_distinct(self@, key@, value@);
        }
        let at = self.position(key);
        let mut entries: Vec<(String, Value)> = Vec::new();
        core::mem::swap(&mut self.entries, &mut entries);
        match at {
            Some(i) => {
                entries.set(i, (key.to_owned(), value));
            },
            None => {
                entries.push((key.to_owned(), value));
            },
        }
        assert(entries@.map_values(|e: (String, Value)| (e.0@, e.1@)) =~= put(
            old(self)@,
            key@,
            value@,
        ));
        self.entries = entries;
    }

    /// Sets each column of `sets`, in turn.
    pub fn set_all(&mut self, sets: &ColumnsMap)
        ensures
            final(self)@ == put_all(old(self)@, sets@),
    {
        let mut i: usize = 0;
        while i < sets.len()
            invariant
                i <= sets@.len(),
                self@ == put_all(old(self)@, sets@.take(i as int)),
            decreases sets@.len() - i,
        {
            let (name, value) = sets.entry(i);
            assert(sets@.take(i + 1).drop_last() =~= sets@.take(i as int));
            self.set(name.as_str(), value.clone());
            i += 1;
        }
        assert(sets@.take(sets@.len() as int) =~= sets@);
    }

}

impl Clone for ColumnsMap {
    /// A copy of the map.
    fn clone(&self) -> (copy: ColumnsMap)
        ensures
            copy@ == self@,
    {
        let mut entries: Vec<(String, Value)> = Vec::with_capacity(self.entries.len());
        let mut i: usize = 0;
        while i < self.entries.len()
            invariant
                i <= self.entries.len(),
                entries@.map_values(|e: (String, Value)| (e.0@, e.1@)) == self@.take(i as int),
            decreases self.entries.len() - i,
        {
            let ghost before = entries@.map_values(|e: (String, Value)| (e.0@, e.1@));
            entries.push((self.entries[i].0.clone(), self.entries[i].1.clone()));
            assert(entries@.map_values(|e: (String, Value)| (e.0@, e.1@)) =~= before.push(
                self@[i as int],
            ));
            assert(before.push(self@[i as int]) =~= self@.take(i + 1));
            i += 1;
        }
        proof {
            use_type_invariant(self);
            assert(self@.take(self@.len() as int) =~= self@);
        }
        ColumnsMap { entries }
    }
}

impl ColumnsMap {
    /// Sets each of `fields`, in turn, to the value at its place in `row`; a
    /// null becomes [`Value::Empty`]. A row of another length than `fields`
    /// is refused and changes nothing.
    pub fn fill(&mut self, row: &Vec<Option<Value>>, fields: &Vec<String>) -> (r: Result<(), Error>)
        ensures
            fields@.len() == row@.len() ==> r is Ok && final(self)@ == put_row(
                old(self)@,
                fields.deep_view(),
                row_view(row@),
            ),
            fields@.len() != row@.len() ==> final(self)@ == old(self)@ && r == Err::<(), Error>(
                Error::RowShape { expected: fields@.len() as usize, found: row@.len() as usize },
            ),
    {
        if row.len() != fields.len() {
            return Err(Error::RowShape { expected: fields.len(), found: row.len() });
        }
        let mut i: usize = 0;
        while i < fields.len()
            invariant
                i <= fields.len(),
                fields.len() == row.len(),
                self@ == put_row(
                    old(self)@,
                    fields.deep_view().take(i as int),
                    row_view(row@).take(i as int),
                ),
            decreases fields.len() - i,
        {
            let value = match &row[i] {
                Some(v) => v.clone(),
                None => Value::Empty,
            };
            proof {
                let f = fields.deep_view().take(i + 1);
                let r = row_view(row@).take(i + 1);
                assert(f.drop_last() =~= fields.deep_view().take(i as int));
                assert(r.drop_last() =~= row_view(row@).take(i as int));
                assert(f.last() == fields[i as int]@);
            }
            self.set(fields[i].as_str(), value);
            i += 1;
        }
        proof {
            assert(fields.deep_view().take(fields.len() as int) =~= fields.deep_view());
            assert(row_view(row@).take(row.len() as int) =~= row_view(row@));
        }
        Ok(())
    }
}

} // verus!
