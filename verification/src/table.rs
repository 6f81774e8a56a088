//! A table of values keyed by text, stated as a map.

use vstd::prelude::*;

use crate::text;

verus! {

/// One row of a table.
#[derive(Debug)]
struct Row<V> {
    key: String,
    value: V,
}

/// A table of values keyed by text. No key occurs twice.
#[derive(Debug)]
pub struct Table<V> {
    rows: Vec<Row<V>>,
}

impl<V> View for Table<V> {
    type V = Map<Seq<char>, V>;

    closed spec fn view(&self) -> Map<Seq<char>, V> {
        Map::new(
            |key: Seq<char>| exists|i: int| self.holds(i, key),
            |key: Seq<char>| self.rows@[choose|i: int| self.holds(i, key)].value,
        )
    }
}

impl<V> Table<V> {
    /// Whether row `i` is that of `key`.
    spec fn holds(self, i: int, key: Seq<char>) -> bool {
        0 <= i < self.rows@.len() && self.rows@[i].key@ == key
    }

    /// Whether no key occurs twice.
    pub closed spec fn wf(self) -> bool {
        forall|i: int, j: int|
            0 <= i < j < self.rows@.len() ==> #[trigger] self.rows@[i].key@
                != #[trigger] self.rows@[j].key@
    }

    /// A row is where the map has its key.
    proof fn lemma_row(self, i: int)
        requires
            self.wf(),
            0 <= i < self.rows@.len(),
        ensures
            self@.dom().contains(self.rows@[i].key@),
            self@[self.rows@[i].key@] == self.rows@[i].value,
    {
        let key = self.rows@[i].key@;
        assert(self.holds(i, key));
        let j = choose|j: int| self.holds(j, key);
        assert(self.holds(j, key));
        assert(i == j);
    }

    /// What writing one row makes of the map.
    proof fn lemma_written(before: Self, after: Self, i: int)
        requires
            before.wf(),
            after.wf(),
            0 <= i < after.rows@.len(),
            before.rows@.len() == after.rows@.len() || before.rows@.len() == i
                == after.rows@.len() - 1,
            forall|k: int|
                0 <= k < before.rows@.len() ==> #[trigger] before.rows@[k].key
                    == after.rows@[k].key,
            forall|k: int|
                0 <= k < before.rows@.len() && k != i ==> #[trigger] before.rows@[k]
                    == after.rows@[k],
        ensures
            after@ == before@.insert(after.rows@[i].key@, after.rows@[i].value),
    {
        let key = after.rows@[i].key@;
        let expected = before@.insert(key, after.rows@[i].value);
        assert forall|k: Seq<char>| after@.dom().contains(k) == expected.dom().contains(k) by {
            if after@.dom().contains(k) && k != key {
                let j = choose|j: int| after.holds(j, k);
                assert(before.rows@[j].key == after.rows@[j].key);
                before.lemma_row(j);
            }
            if before@.dom().contains(k) {
                let j = choose|j: int| before.holds(j, k);
                assert(before.rows@[j].key == after.rows@[j].key);
                after.lemma_row(j);
            }
            after.lemma_row(i);
        }
        assert forall|k: Seq<char>| #[trigger] after@.dom().contains(k) implies after@[k]
            == expected[k] by {
            let j = choose|j: int| after.holds(j, k);
            after.lemma_row(j);
            if j != i {
                assert(before.rows@[j] == after.rows@[j]);
                before.lemma_row(j);
                assert(k != key);
            }
        }
        assert(after@ =~= expected);
    }

    /// An empty table.
    pub fn new() -> (r: Table<V>)
        ensures
            r.wf(),
            r@ == Map::<Seq<char>, V>::empty(),
    {
        let r = Table { rows: Vec::new() };
        assert(r@ =~= Map::<Seq<char>, V>::empty());
        r
    }

    /// The row of `key`.
    fn position(&self, key: &str) -> (r: Option<usize>)
        requires
            self.wf(),
        ensures
            match r {
                Some(i) => self.holds(i as int, key@),
                None => !self@.dom().contains(key@),
            },
    {
        let mut i: usize = 0;
        while i < self.rows.len()
            invariant
                i <= self.rows@.len(),
                forall|k: int| 0 <= k < i ==> !#[trigger] self.holds(k, key@),
            decreases self.rows@.len() - i,
        {
            if text::str_eq(self.rows[i].key.as_str(), key) {
                return Some(i);
            }
            i += 1;
        }
        None
    }

    /// The value kept for `key`.
    pub fn get(&self, key: &str) -> (r: Option<&V>)
        requires
            self.wf(),
        ensures
            match r {
                Some(value) => self@.dom().contains(key@) && *value == self@[key@],
                None => !self@.dom().contains(key@),
            },
    {
        match self.position(key) {
            Some(i) => {
                proof {
                    self.lemma_row(i as int);
                }
                Some(&self.rows[i].value)
            },
            None => None,
        }
    }

    /// The value kept for `key`, for writing; `fresh` is entered where there is
    /// none.
    pub fn entry(&mut self, key: &str, fresh: V) -> (slot: &mut V)
        requires
            old(self).wf(),
        ensures
            *slot == (if old(self)@.dom().contains(key@) {
                old(self)@[key@]
            } else {
                fresh
            }),
            final(self).wf(),
            final(self)@ == old(self)@.insert(key@, *final(slot)),
    {
        let ghost before = *self;
        let i: usize = match self.position(key) {
            Some(i) => {
                proof {
                    self.lemma_row(i as int);
                }
                i
            },
            None => {
                let n: usize = self.rows.len();
                self.rows.push(Row { key: key.to_owned(), value: fresh });
                assert forall|k: int| 0 <= k < n implies #[trigger] self.rows@[k].key@ != key@ by {
                    assert(!before.holds(k, key@));
                }
                n
            },
        };
        let ghost after = *final(self);
        let slot = &mut self.rows[i].value;
        proof {
            Self::lemma_written(before, after, i as int);
        }
        slot
    }
}

} // verus!
