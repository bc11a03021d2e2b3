//! A table from names to values.
use vstd::prelude::*;

use crate::text::str_eq;

verus! {

/// A table from texts to values, kept in the order of first insertion. No name occurs twice.
pub struct Table<V> {
    entries: Vec<(String, V)>,
}

/// The names of the rows.
pub open spec fn row_names<V>(rows: Seq<(String, V)>) -> Seq<Seq<char>> {
    rows.map_values(|row: (String, V)| row.0@)
}

/// The table that rows with distinct names make.
pub open spec fn rows_map<V>(rows: Seq<(String, V)>) -> Map<Seq<char>, V> {
    Map::new(
        |name: Seq<char>| row_names(rows).contains(name),
        |name: Seq<char>| rows[row_names(rows).index_of(name)].1,
    )
}

pub open spec fn distinct_names<V>(rows: Seq<(String, V)>) -> bool {
    forall|i: int, j: int|
        0 <= i < j < rows.len() ==> (#[trigger] rows[i]).0@ != (#[trigger] rows[j]).0@
}

/// The rows but for those of one name.
pub open spec fn without<V>(rows: Seq<(String, V)>, name: Seq<char>) -> Seq<(String, V)> {
    rows.filter(|row: (String, V)| row.0@ != name)
}

proof fn lemma_row<V>(rows: Seq<(String, V)>, i: int)
    requires
        distinct_names(rows),
        0 <= i < rows.len(),
    ensures
        rows_map(rows).contains_key(rows[i].0@),
        rows_map(rows)[rows[i].0@] == rows[i].1,
{
    let names = row_names(rows);
    assert(names[i] == rows[i].0@);
    let k = names.index_of(rows[i].0@);
    assert(0 <= k < names.len() && names[k] == rows[i].0@);
    assert(rows[k].0@ == rows[i].0@);
}

proof fn lemma_no_row<V>(rows: Seq<(String, V)>, name: Seq<char>)
    requires
        forall|i: int| 0 <= i < rows.len() ==> (#[trigger] rows[i]).0@ != name,
    ensures
        !rows_map(rows).contains_key(name),
{
    let names = row_names(rows);
    if names.contains(name) {
        let i = choose|i: int| 0 <= i < names.len() && names[i] == name;
        assert(rows[i].0@ == name);
    }
}

impl<V> Table<V> {
    #[verifier::type_invariant]
    pub closed spec fn well_formed(self) -> bool {
        distinct_names(self.entries@)
    }

    /// The rows in order.
    pub closed spec fn rows(&self) -> Seq<(String, V)> {
        self.entries@
    }

    pub closed spec fn view(&self) -> Map<Seq<char>, V> {
        rows_map(self.entries@)
    }

    /// The empty table.
    pub fn new() -> (r: Self)
        ensures
            r@ == Map::<Seq<char>, V>::empty(),
            r.rows() == Seq::<(String, V)>::empty(),
    {
        let r = Table { entries: Vec::new() };
        assert(r@ =~= Map::<Seq<char>, V>::empty());
        r
    }

    /// The number of names.
    pub fn len(&self) -> (r: usize)
        ensures
            r == self.rows().len(),
    {
        self.entries.len()
    }

    /// The row at a position.
    pub fn row(&self, i: usize) -> (r: &(String, V))
        requires
            i < self.rows().len(),
        ensures
            *r == self.rows()[i as int],
            self@.contains_key(r.0@),
            self@[r.0@] == r.1,
    {
        proof {
            use_type_invariant(self);
            lemma_row(self.entries@, i as int);
        }
        &self.entries[i]
    }

    fn find(&self, name: &str) -> (r: Option<usize>)
        ensures
            match r {
                Some(i) => i < self.entries@.len() && self.entries@[i as int].0@ == name@,
                None => forall|i: int|
                    0 <= i < self.entries@.len() ==> (#[trigger] self.entries@[i]).0@ != name@,
            },
    {
        let mut i: usize = 0;
        while i < self.entries.len()
            invariant
                0 <= i <= self.entries@.len(),
                forall|j: int| 0 <= j < i ==> (#[trigger] self.entries@[j]).0@ != name@,
            decreases self.entries@.len() - i,
        {
            if str_eq(self.entries[i].0.as_str(), name) {
                return Some(i);
            }
            i = i + 1;
        }
        None
    }

    /// Whether the name is in the table.
    pub fn contains(&self, name: &str) -> (r: bool)
        ensures
            r == self@.contains_key(name@),
    {
        proof {
            use_type_invariant(self);
        }
        match self.find(name) {
            Some(i) => {
                proof {
                    lemma_row(self.entries@, i as int);
                }
                true
            },
            None => {
                proof {
                    lemma_no_row(self.entries@, name@);
                }
                false
            },
        }
    }

    /// The value of a name.
    pub fn get(&self, name: &str) -> (r: Option<&V>)
        ensures
            match r {
                Some(v) => self@.contains_key(name@) && self@[name@] == *v,
                None => !self@.contains_key(name@),
            },
    {
        proof {
            use_type_invariant(self);
        }
        match self.find(name) {
            Some(i) => {
                proof {
                    lemma_row(self.entries@, i as int);
                }
                Some(&self.entries[i].1)
            },
            None => {
                proof {
                    lemma_no_row(self.entries@, name@);
                }
                None
            },
        }
    }

    /// Takes a name and its value out.
    pub fn remove(&mut self, name: &str) -> (r: Option<V>)
        ensures
            final(self)@ == old(self)@.remove(name@),
            match r {
                Some(v) => old(self)@.contains_key(name@) && old(self)@[name@] == v,
                None => !old(self)@.contains_key(name@),
            },
            final(self).rows() == without(old(self).rows(), name@),
    {
        proof {
            use_type_invariant(&*self);
        }
        let ghost before = self.entries@;
        match self.find(name) {
            Some(i) => {
                let mut entries: Vec<(String, V)> = Vec::new();
                std::mem::swap(&mut entries, &mut self.entries);
                let row = entries.remove(i);
                proof {
                    lemma_row(before, i as int);
                    lemma_rows_remove(before, i as int);
                    lemma_filter_one(before, i as int, name@);
                }
                self.entries = entries;
                Some(row.1)
            },
            None => {
                proof {
                    lemma_no_row(before, name@);
                    assert(self@.remove(name@) =~= self@);
                    lemma_filter_all(before, name@);
                }
                None
            },
        }
    }

    /// Sets the value of a name, and returns the value it had. A new name comes last; a name that
    /// is there keeps its place.
    pub fn insert(&mut self, name: String, value: V) -> (r: Option<V>)
        ensures
            final(self)@ == old(self)@.insert(name@, value),
            match r {
                Some(v) => old(self)@.contains_key(name@) && old(self)@[name@] == v,
                None => !old(self)@.contains_key(name@) && final(self).rows() == old(self).rows().push(
                    (name, value),
                ),
            },
            row_names(final(self).rows()) == if old(self)@.contains_key(name@) {
                row_names(old(self).rows())
            } else {
                row_names(old(self).rows()).push(name@)
            },
    {
        proof {
            use_type_invariant(&*self);
        }
        let ghost before = self.entries@;
        match self.find(name.as_str()) {
            Some(i) => {
                let mut entries: Vec<(String, V)> = Vec::new();
                std::mem::swap(&mut entries, &mut self.entries);
                let row = entries.remove(i);
                let ghost key = row.0@;
                entries.insert(i, (name, value));
                proof {
                    lemma_row(before, i as int);
                    lemma_rows_set(before, i as int, (name, value));
                    assert(entries@ =~= before.update(i as int, (name, value)));
                    assert(row_names(entries@) =~= row_names(before));
                }
                self.entries = entries;
                Some(row.1)
            },
            None => {
                let mut entries: Vec<(String, V)> = Vec::new();
                std::mem::swap(&mut entries, &mut self.entries);
                entries.push((name, value));
                proof {
                    lemma_no_row(before, name@);
                    lemma_rows_push(before, (name, value));
                    assert(row_names(entries@) =~= row_names(before).push(name@));
                }
                self.entries = entries;
                None
            },
        }
    }

    /// Takes every name out.
    pub fn clear(&mut self)
        ensures
            final(self)@ == Map::<Seq<char>, V>::empty(),
            final(self).rows() == Seq::<(String, V)>::empty(),
    {
        self.entries = Vec::new();
        assert(self@ =~= Map::<Seq<char>, V>::empty());
    }
}

impl<V> Table<V> {
    /// The rows hold exactly the names and values of the table, each name once.
    pub proof fn lemma_rows(&self)
        requires
            self.well_formed(),
        ensures
            distinct_names(self.rows()),
            forall|name: Seq<char>| #[trigger]
                self@.contains_key(name) <==> row_names(self.rows()).contains(name),
            forall|i: int|
                0 <= i < self.rows().len() ==> self@.contains_key((#[trigger] self.rows()[i]).0@)
                    && self@[self.rows()[i].0@] == self.rows()[i].1,
    {
        assert forall|i: int| 0 <= i < self.rows().len() implies self@.contains_key(
            (#[trigger] self.rows()[i]).0@,
        ) && self@[self.rows()[i].0@] == self.rows()[i].1 by {
            lemma_row(self.entries@, i);
        }
    }
}

proof fn lemma_rows_remove<V>(rows: Seq<(String, V)>, i: int)
    requires
        distinct_names(rows),
        0 <= i < rows.len(),
    ensures
        distinct_names(rows.remove(i)),
        rows_map(rows.remove(i)) == rows_map(rows).remove(rows[i].0@),
{
    let after = rows.remove(i);
    let name = rows[i].0@;
    assert forall|a: int, b: int| 0 <= a < b < after.len() implies (#[trigger] after[a]).0@ != (
    #[trigger] after[b]).0@ by {
        let a0 = if a < i { a } else { a + 1 };
        let b0 = if b < i { b } else { b + 1 };
        assert(after[a] == rows[a0] && after[b] == rows[b0]);
    }
    lemma_no_row_after(after, name, rows, i);
    assert forall|n: Seq<char>| rows_map(after).contains_key(n) <==> rows_map(rows).remove(
        name,
    ).contains_key(n) by {
        if rows_map(after).contains_key(n) {
            let k = row_names(after).index_of(n);
            let k0 = if k < i { k } else { k + 1 };
            assert(after[k] == rows[k0]);
            lemma_row(rows, k0);
        } else if rows_map(rows).contains_key(n) && n != name {
            let k = row_names(rows).index_of(n);
            assert(rows[k].0@ == n);
            let k1 = if k < i { k } else { k - 1 };
            assert(after[k1] == rows[k]);
            lemma_row(after, k1);
        }
    }
    assert forall|n: Seq<char>| #[trigger] rows_map(after).contains_key(n) implies rows_map(after)[n]
        == rows_map(rows)[n] by {
        let k = row_names(after).index_of(n);
        let k0 = if k < i { k } else { k + 1 };
        assert(after[k] == rows[k0]);
        lemma_row(rows, k0);
        lemma_row(after, k);
    }
    assert(rows_map(after) =~= rows_map(rows).remove(name));
}

proof fn lemma_no_row_after<V>(
    after: Seq<(String, V)>,
    name: Seq<char>,
    rows: Seq<(String, V)>,
    i: int,
)
    requires
        distinct_names(rows),
        0 <= i < rows.len(),
        after == rows.remove(i),
        name == rows[i].0@,
    ensures
        !rows_map(after).contains_key(name),
{
    assert forall|k: int| 0 <= k < after.len() implies (#[trigger] after[k]).0@ != name by {
        let k0 = if k < i { k } else { k + 1 };
        assert(after[k] == rows[k0]);
        if k0 < i {
            assert(rows[k0].0@ != rows[i].0@);
        } else {
            assert(rows[i].0@ != rows[k0].0@);
        }
    }
    lemma_no_row(after, name);
}

proof fn lemma_filter_all<V>(rows: Seq<(String, V)>, name: Seq<char>)
    requires
        forall|k: int| 0 <= k < rows.len() ==> (#[trigger] rows[k]).0@ != name,
    ensures
        without(rows, name) == rows,
    decreases rows.len(),
{
    reveal(Seq::filter);
    if rows.len() > 0 {
        assert forall|k: int| 0 <= k < rows.drop_last().len() implies (
        #[trigger] rows.drop_last()[k]).0@ != name by {
            assert(rows.drop_last()[k] == rows[k]);
        }
        lemma_filter_all(rows.drop_last(), name);
        assert(rows.last().0@ != name);
        assert(rows.drop_last().push(rows.last()) =~= rows);
    } else {
        assert(rows =~= without(rows, name));
    }
}

proof fn lemma_filter_one<V>(rows: Seq<(String, V)>, i: int, name: Seq<char>)
    requires
        distinct_names(rows),
        0 <= i < rows.len(),
        rows[i].0@ == name,
    ensures
        without(rows, name) == rows.remove(i),
    decreases rows.len(),
{
    reveal(Seq::filter);
    let front = rows.drop_last();
    if i == rows.len() - 1 {
        assert forall|k: int| 0 <= k < front.len() implies (#[trigger] front[k]).0@ != name by {
            assert(front[k] == rows[k]);
        }
        lemma_filter_all(front, name);
        assert(rows.remove(i) =~= front);
    } else {
        assert(distinct_names(front)) by {
            assert forall|a: int, b: int| 0 <= a < b < front.len() implies (#[trigger] front[a]).0@
                != (#[trigger] front[b]).0@ by {
                assert(front[a] == rows[a] && front[b] == rows[b]);
            }
        }
        assert(front[i] == rows[i]);
        lemma_filter_one(front, i, name);
        assert(rows[i].0@ != rows[rows.len() - 1].0@);
        assert(rows.remove(i) =~= front.remove(i).push(rows.last()));
    }
}

proof fn lemma_rows_push<V>(rows: Seq<(String, V)>, row: (String, V))
    requires
        distinct_names(rows),
        !rows_map(rows).contains_key(row.0@),
    ensures
        distinct_names(rows.push(row)),
        rows_map(rows.push(row)) == rows_map(rows).insert(row.0@, row.1),
{
    let after = rows.push(row);
    assert forall|a: int, b: int| 0 <= a < b < after.len() implies (#[trigger] after[a]).0@ != (
    #[trigger] after[b]).0@ by {
        if b == rows.len() {
            lemma_row(rows, a);
        }
    }
    lemma_row(after, rows.len() as int);
    assert forall|n: Seq<char>| rows_map(after).contains_key(n) <==> rows_map(rows).insert(
        row.0@,
        row.1,
    ).contains_key(n) by {
        if rows_map(after).contains_key(n) {
            let k = row_names(after).index_of(n);
            assert(after[k].0@ == n);
            if k < rows.len() {
                assert(after[k] == rows[k]);
                lemma_row(rows, k);
            }
        }
        if rows_map(rows).contains_key(n) {
            let k = row_names(rows).index_of(n);
            assert(rows[k].0@ == n);
            assert(after[k] == rows[k]);
            lemma_row(after, k);
        }
    }
    assert forall|n: Seq<char>| #[trigger] rows_map(after).contains_key(n) implies rows_map(after)[n]
        == rows_map(rows).insert(row.0@, row.1)[n] by {
        let k = row_names(after).index_of(n);
        lemma_row(after, k);
        if k < rows.len() {
            assert(after[k] == rows[k]);
            lemma_row(rows, k);
        }
    }
    assert(rows_map(after) =~= rows_map(rows).insert(row.0@, row.1));
}

proof fn lemma_rows_set<V>(rows: Seq<(String, V)>, i: int, row: (String, V))
    requires
        distinct_names(rows),
        0 <= i < rows.len(),
        rows[i].0@ == row.0@,
    ensures
        distinct_names(rows.update(i, row)),
        rows_map(rows.update(i, row)) == rows_map(rows).insert(row.0@, row.1),
{
    let after = rows.update(i, row);
    assert(row_names(after) =~= row_names(rows));
    assert forall|a: int, b: int| 0 <= a < b < after.len() implies (#[trigger] after[a]).0@ != (
    #[trigger] after[b]).0@ by {
        assert(after[a].0@ == rows[a].0@ && after[b].0@ == rows[b].0@);
    }
    lemma_row(after, i);
    lemma_row(rows, i);
    assert forall|n: Seq<char>| #[trigger] rows_map(after).contains_key(n) implies rows_map(after)[n]
        == rows_map(rows).insert(row.0@, row.1)[n] by {
        let k = row_names(after).index_of(n);
        assert(after[k].0@ == n);
        if k == i {
            lemma_row(after, i);
        }
    }
    assert(rows_map(after) =~= rows_map(rows).insert(row.0@, row.1));
}

} // verus!
