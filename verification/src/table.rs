//! A map from text to values that also has an order.

use vstd::hash_map::StringHashMap;
use vstd::prelude::*;

verus! {

broadcast use vstd::hash_map::group_hash_map_axioms;

/// Rows in the order in which their keys first came, with an index by key.
pub struct StringTable<V> {
    entries: Vec<(String, V)>,
    index: StringHashMap<usize>,
}

/// `rows` after a write of `v` under `k`: in place where `k` has a row, else at the end.
pub open spec fn upsert<V>(rows: Seq<(Seq<char>, V)>, k: Seq<char>, v: V) -> Seq<(Seq<char>, V)> {
    if exists|i: int| 0 <= i < rows.len() && rows[i].0 == k {
        let i = choose|i: int| 0 <= i < rows.len() && rows[i].0 == k;
        rows.update(i, (k, v))
    } else {
        rows.push((k, v))
    }
}

/// No key has two rows.
pub open spec fn keys_distinct<V>(rows: Seq<(Seq<char>, V)>) -> bool {
    forall|i: int, j: int|
        0 <= i < j < rows.len() ==> (#[trigger] rows[i]).0 != (#[trigger] rows[j]).0
}

/// What the rows hold, without their order.
pub open spec fn contents_of<V>(rows: Seq<(Seq<char>, V)>) -> Map<Seq<char>, V> {
    Map::new(
        |k: Seq<char>| exists|i: int| 0 <= i < rows.len() && (#[trigger] rows[i]).0 == k,
        |k: Seq<char>| rows[choose|i: int| 0 <= i < rows.len() && (#[trigger] rows[i]).0 == k].1,
    )
}

/// A row's key leads to the row's value.
pub proof fn lemma_row_in_contents<V>(rows: Seq<(Seq<char>, V)>, i: int)
    requires
        keys_distinct(rows),
        0 <= i < rows.len(),
    ensures
        contents_of(rows).contains_key(rows[i].0),
        contents_of(rows)[rows[i].0] == rows[i].1,
{
    let k = rows[i].0;
    let j = choose|j: int| 0 <= j < rows.len() && (#[trigger] rows[j]).0 == k;
    assert(rows[j].0 == k);
    if i < j {
        assert(rows[i].0 != rows[j].0);
    } else if j < i {
        assert(rows[j].0 != rows[i].0);
    }
}

/// The rows' keys are the domain, and there are as many rows as keys.
pub proof fn lemma_contents_len<V>(rows: Seq<(Seq<char>, V)>)
    requires
        keys_distinct(rows),
    ensures
        contents_of(rows).dom().finite(),
        contents_of(rows).len() == rows.len(),
    decreases rows.len(),
{
    if rows.len() == 0 {
        assert(contents_of(rows).dom() =~= Set::<Seq<char>>::empty());
    } else {
        let front = rows.drop_last();
        let k = rows.last().0;
        assert(keys_distinct(front)) by {
            assert forall|i: int, j: int| 0 <= i < j < front.len() implies (#[trigger] front[i]).0
                != (#[trigger] front[j]).0 by {
                assert(rows[i].0 != rows[j].0);
            }
        }
        lemma_contents_len(front);
        assert(!contents_of(front).contains_key(k)) by {
            if contents_of(front).contains_key(k) {
                let i = choose|i: int| 0 <= i < front.len() && (#[trigger] front[i]).0 == k;
                assert(rows[i].0 != rows[rows.len() - 1].0);
            }
        }
        assert(contents_of(rows).dom() =~= contents_of(front).dom().insert(k)) by {
            assert forall|x: Seq<char>| contents_of(rows).dom().contains(x)
                == #[trigger] contents_of(front).dom().insert(k).contains(x) by {
                if contents_of(rows).contains_key(x) {
                    let i = choose|i: int| 0 <= i < rows.len() && (#[trigger] rows[i]).0 == x;
                    if i < front.len() {
                        assert(front[i].0 == x);
                    }
                }
                if contents_of(front).contains_key(x) {
                    let i = choose|i: int| 0 <= i < front.len() && (#[trigger] front[i]).0 == x;
                    assert(rows[i].0 == x);
                }
                if x == k {
                    assert(rows[rows.len() - 1].0 == x);
                }
            }
        }
    }
}

/// A write changes the contents at its key and nowhere else, and keeps the keys distinct.
pub proof fn lemma_upsert<V>(rows: Seq<(Seq<char>, V)>, k: Seq<char>, v: V)
    requires
        keys_distinct(rows),
    ensures
        keys_distinct(upsert(rows, k, v)),
        contents_of(upsert(rows, k, v)) == contents_of(rows).insert(k, v),
{
    let after = upsert(rows, k, v);
    if exists|i: int| 0 <= i < rows.len() && rows[i].0 == k {
        let at = choose|i: int| 0 <= i < rows.len() && rows[i].0 == k;
        assert forall|i: int, j: int| 0 <= i < j < after.len() implies (#[trigger] after[i]).0 != (
        #[trigger] after[j]).0 by {
            assert(rows[i].0 != rows[j].0);
        }
    } else {
        assert forall|i: int, j: int| 0 <= i < j < after.len() implies (#[trigger] after[i]).0 != (
        #[trigger] after[j]).0 by {
            if j < rows.len() {
                assert(rows[i].0 != rows[j].0);
            } else {
                assert(rows[i].0 != k);
            }
        }
    }
    assert(contents_of(after) =~= contents_of(rows).insert(k, v)) by {
        assert forall|x: Seq<char>| #[trigger] contents_of(after).contains_key(x) == contents_of(
            rows,
        ).insert(k, v).contains_key(x) by {
            if contents_of(after).contains_key(x) {
                let i = choose|i: int| 0 <= i < after.len() && (#[trigger] after[i]).0 == x;
                if i < rows.len() {
                    assert(rows[i].0 == x);
                }
            }
            if contents_of(rows).contains_key(x) {
                let i = choose|i: int| 0 <= i < rows.len() && (#[trigger] rows[i]).0 == x;
                assert(after[i].0 == x);
            }
            if x == k {
                if exists|i: int| 0 <= i < rows.len() && rows[i].0 == k {
                    let at = choose|i: int| 0 <= i < rows.len() && rows[i].0 == k;
                    assert(after[at].0 == k);
                } else {
                    assert(after[rows.len() as int].0 == k);
                }
            }
        }
        assert forall|x: Seq<char>| #[trigger] contents_of(after).contains_key(x) implies contents_of(
            after,
        )[x] == contents_of(rows).insert(k, v)[x] by {
            let i = choose|i: int| 0 <= i < after.len() && (#[trigger] after[i]).0 == x;
            lemma_row_in_contents(after, i);
            if x != k {
                assert(rows[i].0 == x);
                lemma_row_in_contents(rows, i);
            }
        }
    }
}

impl<V> StringTable<V> {
    /// The rows, in order.
    pub closed spec fn rows(&self) -> Seq<(Seq<char>, V)> {
        Seq::new(self.entries@.len(), |i: int| (self.entries@[i].0@, self.entries@[i].1))
    }

    /// The rows without their order.
    pub open spec fn view(&self) -> Map<Seq<char>, V> {
        contents_of(self.rows())
    }

    /// The keys are distinct and the index leads to each row.
    pub closed spec fn well_formed(&self) -> bool {
        &&& forall|i: int|
            0 <= i < self.entries@.len() ==> self.index@.contains_key(
                (#[trigger] self.entries@[i]).0@,
            ) && self.index@[self.entries@[i].0@] == i
        &&& forall|k: Seq<char>| #[trigger]
            self.index@.contains_key(k) ==> self.index@[k] < self.entries@.len()
                && self.entries@[self.index@[k] as int].0@ == k
    }

    /// What well-formedness means for the rows.
    pub proof fn lemma_rows(&self)
        requires
            self.well_formed(),
        ensures
            keys_distinct(self.rows()),
            self@.dom().finite(),
            self@.len() == self.rows().len(),
            self.rows().len() <= usize::MAX,
    {
        assert(self.entries.len() == self.entries@.len());
        assert forall|i: int, j: int| 0 <= i < j < self.rows().len() implies (
        #[trigger] self.rows()[i]).0 != (#[trigger] self.rows()[j]).0 by {
            assert(self.index@[self.entries@[i].0@] == i);
            assert(self.index@[self.entries@[j].0@] == j);
        }
        lemma_contents_len(self.rows());
    }

    /// The index and the contents have the same keys and agree on them.
    proof fn lemma_index(&self, k: Seq<char>)
        requires
            self.well_formed(),
        ensures
            self@.contains_key(k) == self.index@.contains_key(k),
            self@.contains_key(k) ==> self@[k] == self.entries@[self.index@[k] as int].1,
    {
        self.lemma_rows();
        if self.index@.contains_key(k) {
            let i = self.index@[k] as int;
            assert(self.rows()[i].0 == k);
            lemma_row_in_contents(self.rows(), i);
        }
        if self@.contains_key(k) {
            let i = choose|i: int|
                0 <= i < self.rows().len() && (#[trigger] self.rows()[i]).0 == k;
            assert(self.entries@[i].0@ == k);
        }
    }

    /// An empty table.
    pub fn new() -> (r: Self)
        ensures
            r.well_formed(),
            r.rows() == Seq::<(Seq<char>, V)>::empty(),
            r@ == Map::<Seq<char>, V>::empty(),
    {
        let r = StringTable { entries: Vec::new(), index: StringHashMap::new() };
        assert(r.rows() =~= Seq::<(Seq<char>, V)>::empty());
        assert(r@ =~= Map::<Seq<char>, V>::empty());
        r
    }

    /// How many rows there are.
    pub fn len(&self) -> (n: usize)
        requires
            self.well_formed(),
        ensures
            n == self.rows().len(),
            n == self@.len(),
            self@.dom().finite(),
    {
        proof {
            self.lemma_rows();
        }
        self.entries.len()
    }

    /// The key of row `i`.
    pub fn key_at(&self, i: usize) -> (k: &String)
        requires
            i < self.rows().len(),
        ensures
            k@ == self.rows()[i as int].0,
    {
        &self.entries[i].0
    }

    /// The value of row `i`.
    pub fn value_at(&self, i: usize) -> (v: &V)
        requires
            i < self.rows().len(),
        ensures
            *v == self.rows()[i as int].1,
    {
        &self.entries[i].1
    }

    /// The keys of the rows.
    pub fn keys(&self) -> (r: Vec<String>)
        requires
            self.well_formed(),
        ensures
            crate::task::texts(r@).no_duplicates(),
            forall|k: Seq<char>| #[trigger]
                crate::task::texts(r@).contains(k) <==> self@.contains_key(k),
    {
        let mut out: Vec<String> = Vec::new();
        let n: usize = self.len();
        proof {
            self.lemma_rows();
        }
        let mut i: usize = 0;
        while i < n
            invariant
                i <= n == self.rows().len(),
                out@.len() == i,
                forall|j: int| 0 <= j < i ==> (#[trigger] out@[j])@ == self.rows()[j].0,
            decreases n - i,
        {
            out.push(self.key_at(i).clone());
            i = i + 1;
        }
        proof {
            let keys = crate::task::texts(out@);
            assert forall|k: Seq<char>| #[trigger] keys.contains(k) <==> self@.contains_key(k) by {
                if keys.contains(k) {
                    let j = choose|j: int| 0 <= j < keys.len() && keys[j] == k;
                    lemma_row_in_contents(self.rows(), j);
                }
                if self@.contains_key(k) {
                    let j = choose|j: int|
                        0 <= j < self.rows().len() && (#[trigger] self.rows()[j]).0 == k;
                    assert(keys[j] == k);
                }
            }
            assert forall|a: int, b: int| 0 <= a < b < keys.len() implies keys[a] != keys[b] by {
                assert(self.rows()[a].0 != self.rows()[b].0);
            }
        }
        out
    }

    /// Whether `k` has a row.
    pub fn contains_key(&self, k: &str) -> (r: bool)
        requires
            self.well_formed(),
        ensures
            r == self@.contains_key(k@),
    {
        proof {
            self.lemma_index(k@);
        }
        self.index.contains_key(k)
    }

    /// The value under `k`.
    pub fn get(&self, k: &str) -> (r: Option<&V>)
        requires
            self.well_formed(),
        ensures
            match r {
                Some(v) => self@.contains_key(k@) && *v == self@[k@],
                None => !self@.contains_key(k@),
            },
    {
        proof {
            self.lemma_index(k@);
        }
        match self.index.get(k) {
            Some(i) => Some(&self.entries[*i].1),
            None => None,
        }
    }

    /// Writes `v` under `k`: in place where `k` has a row, else as the last row.
    pub fn insert(&mut self, k: String, v: V)
        requires
            old(self).well_formed(),
        ensures
            final(self).well_formed(),
            final(self).rows() == upsert(old(self).rows(), k@, v),
            final(self)@ == old(self)@.insert(k@, v),
    {
        proof {
            self.lemma_rows();
            self.lemma_index(k@);
            lemma_upsert(self.rows(), k@, v);
        }
        let ghost before = *self;
        let slot: Option<usize> = match self.index.get(k.as_str()) {
            Some(i) => Some(*i),
            None => None,
        };
        match slot {
            Some(i) => {
                proof {
                    assert(before.rows()[i as int].0 == k@);
                    let at = choose|j: int|
                        0 <= j < before.rows().len() && before.rows()[j].0 == k@;
                    assert(before.entries@[at].0@ == k@);
                    assert(at == i);
                }
                self.entries.set(i, (k, v));
                assert(self.rows() =~= upsert(before.rows(), k@, v));
            },
            None => {
                let at: usize = self.entries.len();
                self.index.insert(k.clone(), at);
                self.entries.push((k, v));
                proof {
                    assert forall|j: int| 0 <= j < before.rows().len() implies before.rows()[j].0
                        != k@ by {
                        assert(before.entries@[j].0@ != k@);
                    }
                    assert(self.rows() =~= before.rows().push((k@, v)));
                    assert forall|i: int| 0 <= i < self.entries@.len() implies self.index@.contains_key(
                        (#[trigger] self.entries@[i]).0@,
                    ) && self.index@[self.entries@[i].0@] == i by {
                        if i < before.entries@.len() {
                            assert(self.entries@[i] == before.entries@[i]);
                        }
                    }
                    assert forall|x: Seq<char>| #[trigger]
                        self.index@.contains_key(x) implies self.index@[x] < self.entries@.len()
                        && self.entries@[self.index@[x] as int].0@ == x by {
                        if x != k@ {
                            assert(before.index@.contains_key(x));
                        }
                    }
                }
            },
        }
    }

    /// Takes the row of `k` out. The last row moves into its place.
    pub fn remove(&mut self, k: &str) -> (r: Option<V>)
        requires
            old(self).well_formed(),
        ensures
            final(self).well_formed(),
            final(self)@ == old(self)@.remove(k@),
            match r {
                Some(v) => old(self)@.contains_key(k@) && v == old(self)@[k@],
                None => !old(self)@.contains_key(k@),
            },
    {
        let ghost before = *self;
        proof {
            self.lemma_rows();
            self.lemma_index(k@);
        }
        let slot: Option<usize> = match self.index.get(k) {
            Some(i) => Some(*i),
            None => None,
        };
        match slot {
            None => {
                assert(self@ =~= before@.remove(k@));
                None
            },
            Some(i) => {
                self.index.remove(k);
                let last: usize = self.entries.len() - 1;
                if i != last {
                    let moved: String = self.entries[last].0.clone();
                    self.index.insert(moved, i);
                }
                let row = self.entries.swap_remove(i);
                proof {
                    assert forall|j: int| 0 <= j < self.entries@.len() implies self.index@.contains_key(
                        (#[trigger] self.entries@[j]).0@,
                    ) && self.index@[self.entries@[j].0@] == j by {
                        if j == i {
                            assert(self.entries@[j] == before.entries@[last as int]);
                        } else {
                            assert(self.entries@[j] == before.entries@[j]);
                            assert(before.index@[before.entries@[last as int].0@] == last);
                        }
                    }
                    assert forall|x: Seq<char>| #[trigger]
                        self.index@.contains_key(x) implies self.index@[x] < self.entries@.len()
                        && self.entries@[self.index@[x] as int].0@ == x by {
                        assert(before.index@.contains_key(x));
                        assert(x != k@);
                        if before.index@[x] == last {
                        } else {
                            assert(self.index@[x] == before.index@[x]);
                        }
                    }
                    assert(self@ =~= before@.remove(k@)) by {
                        assert forall|x: Seq<char>| #[trigger]
                            self@.contains_key(x) == before@.remove(k@).contains_key(x) by {
                            self.lemma_index(x);
                            before.lemma_index(x);
                        }
                        assert forall|x: Seq<char>| #[trigger] self@.contains_key(x) implies self@[x]
                            == before@.remove(k@)[x] by {
                            self.lemma_index(x);
                            before.lemma_index(x);
                        }
                    }
                }
                Some(row.1)
            },
        }
    }
}

} // verus!
