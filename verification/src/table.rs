//! Tables that are keyed and ordered by text.
use vstd::prelude::*;
use crate::text::{before, str_eq, text_before, text_before_is_strict_order};

verus! {

/// The entries of a table.
pub type Entries<V> = Seq<(Seq<char>, V)>;

/// Where a key stands or belongs, from a position on: at the first key that is not before it.
pub open spec fn slot<V>(table: Entries<V>, key: Seq<char>, i: int) -> int
    decreases table.len() - i,
{
    if i < 0 || i >= table.len() {
        table.len() as int
    } else if text_before(table[i].0, key) {
        slot(table, key, i + 1)
    } else {
        i
    }
}

/// Whether a table has a key.
pub open spec fn has_key<V>(table: Entries<V>, key: Seq<char>) -> bool {
    let p = slot(table, key, 0);
    0 <= p < table.len() && table[p].0 == key
}

/// The value of a key.
pub open spec fn lookup<V>(table: Entries<V>, key: Seq<char>) -> Option<V> {
    if has_key(table, key) {
        Some(table[slot(table, key, 0)].1)
    } else {
        None
    }
}

/// A table with a value for a key.
pub open spec fn put<V>(table: Entries<V>, key: Seq<char>, value: V) -> Entries<V> {
    let p = slot(table, key, 0);
    if has_key(table, key) {
        table.update(p, (key, value))
    } else {
        table.insert(p, (key, value))
    }
}

/// A table without a key.
pub open spec fn without<V>(table: Entries<V>, key: Seq<char>) -> Entries<V> {
    if has_key(table, key) {
        table.remove(slot(table, key, 0))
    } else {
        table
    }
}

/// Whether the keys of a table are in order, each of them once.
pub open spec fn sorted<V>(table: Entries<V>) -> bool {
    forall|i: int, j: int|
        0 <= i < j < table.len() ==> text_before(#[trigger] table[i].0, #[trigger] table[j].0)
}

pub(crate) proof fn lemma_slot<V>(table: Entries<V>, key: Seq<char>, i: int)
    requires
        0 <= i <= table.len(),
    ensures
        i <= slot(table, key, i) <= table.len(),
        forall|k: int| i <= k < slot(table, key, i) ==> text_before(#[trigger] table[k].0, key),
        slot(table, key, i) < table.len() ==> !text_before(table[slot(table, key, i)].0, key),
    decreases table.len() - i,
{
    if i < table.len() && text_before(table[i].0, key) {
        lemma_slot(table, key, i + 1);
    }
}

pub(crate) proof fn lemma_slot_is<V>(table: Entries<V>, key: Seq<char>, i: int, p: int)
    requires
        0 <= i <= p <= table.len(),
        forall|k: int| i <= k < p ==> text_before(#[trigger] table[k].0, key),
        p < table.len() ==> !text_before(table[p].0, key),
    ensures
        slot(table, key, i) == p,
    decreases p - i,
{
    if i < p {
        lemma_slot_is(table, key, i + 1, p);
    }
}

proof fn lemma_irreflexive(key: Seq<char>)
    ensures
        !text_before(key, key),
{
    text_before_is_strict_order(key, key, key);
}

/// A value that was put for a key is found again, and the other keys keep theirs.
pub proof fn put_is_found<V>(table: Entries<V>, key: Seq<char>, value: V, other: Seq<char>)
    requires
        sorted(table),
    ensures
        sorted(put(table, key, value)),
        lookup(put(table, key, value), key) == Some(value),
        other != key ==> lookup(put(table, key, value), other) == lookup(table, other),
{
    let p = slot(table, key, 0);
    let next = put(table, key, value);
    lemma_slot(table, key, 0);
    lemma_irreflexive(key);
    lemma_slot_is(next, key, 0, p);
    lemma_slot(table, other, 0);
    let q = slot(table, other, 0);
    if has_key(table, key) {
        assert forall|i: int, j: int| 0 <= i < j < next.len() implies text_before(
            #[trigger] next[i].0,
            #[trigger] next[j].0,
        ) by {
            assert(next[i].0 == table[i].0);
            assert(next[j].0 == table[j].0);
        }
        lemma_slot_is(next, other, 0, q);
    } else {
        assert forall|i: int, j: int| 0 <= i < j < next.len() implies text_before(
            #[trigger] next[i].0,
            #[trigger] next[j].0,
        ) by {
            if p < table.len() {
                text_before_is_strict_order(key, table[p].0, key);
                if j == p && i < p {
                    assert(next[i] == table[i]);
                } else if i == p && j > p {
                    assert(next[j] == table[j - 1]);
                    if j - 1 > p {
                        assert(text_before(table[p].0, table[j - 1].0));
                        text_before_is_strict_order(key, table[p].0, table[j - 1].0);
                    }
                }
            }
            if i < p {
                assert(next[i] == table[i]);
            } else if i > p {
                assert(next[i] == table[i - 1]);
            }
            if j < p {
                assert(next[j] == table[j]);
            } else if j > p {
                assert(next[j] == table[j - 1]);
            }
        }
        if other != key {
            text_before_is_strict_order(key, other, key);
            if q < p {
                assert forall|k: int| 0 <= k < q implies text_before(
                    #[trigger] next[k].0,
                    other,
                ) by {
                    assert(next[k] == table[k]);
                }
                assert(next[q] == table[q]);
                lemma_slot_is(next, other, 0, q);
            } else if q > p {
                assert forall|k: int| 0 <= k < q + 1 implies text_before(
                    #[trigger] next[k].0,
                    other,
                ) by {
                    if k < p {
                        assert(next[k] == table[k]);
                    } else if k == p {
                        assert(text_before(table[p].0, other));
                        text_before_is_strict_order(key, table[p].0, other);
                        text_before_is_strict_order(key, table[p].0, key);
                    } else {
                        assert(next[k] == table[k - 1]);
                    }
                }
                if q < table.len() {
                    assert(next[q + 1] == table[q]);
                }
                lemma_slot_is(next, other, 0, q + 1);
            } else {
                if q < table.len() {
                    assert(next[q + 1] == table[q]);
                }
                if text_before(key, other) {
                    assert forall|k: int| 0 <= k < q + 1 implies text_before(
                        #[trigger] next[k].0,
                        other,
                    ) by {
                        if k < p {
                            assert(next[k] == table[k]);
                        }
                    }
                    lemma_slot_is(next, other, 0, q + 1);
                } else {
                    assert forall|k: int| 0 <= k < q implies text_before(
                        #[trigger] next[k].0,
                        other,
                    ) by {
                        assert(next[k] == table[k]);
                    }
                    lemma_slot_is(next, other, 0, q);
                    if q < table.len() && table[q].0 == other {
                        text_before_is_strict_order(key, other, key);
                    }
                }
            }
        }
    }
}

/// A removed key is not found, and the other keys keep their values.
pub proof fn removed_is_gone<V>(table: Entries<V>, key: Seq<char>, other: Seq<char>)
    requires
        sorted(table),
    ensures
        sorted(without(table, key)),
        lookup(without(table, key), key) is None,
        other != key ==> lookup(without(table, key), other) == lookup(table, other),
{
    let p = slot(table, key, 0);
    let next = without(table, key);
    lemma_slot(table, key, 0);
    lemma_irreflexive(key);
    if has_key(table, key) {
        assert forall|i: int, j: int| 0 <= i < j < next.len() implies text_before(
            #[trigger] next[i].0,
            #[trigger] next[j].0,
        ) by {
            assert(next[i] == table[if i < p {
                i
            } else {
                i + 1
            }]);
            assert(next[j] == table[if j < p {
                j
            } else {
                j + 1
            }]);
        }
        if p < next.len() {
            assert(next[p] == table[p + 1]);
            text_before_is_strict_order(key, table[p + 1].0, key);
        }
        lemma_slot_is(next, key, 0, p);
        if p < next.len() {
            assert(text_before(table[p].0, table[p + 1].0));
        }
        if other != key {
            lemma_slot(table, other, 0);
            let q = slot(table, other, 0);
            text_before_is_strict_order(key, other, key);
            if q <= p {
                assert forall|k: int| 0 <= k < q implies text_before(
                    #[trigger] next[k].0,
                    other,
                ) by {
                    assert(next[k] == table[k]);
                }
                if q < p {
                    assert(next[q] == table[q]);
                } else if q < next.len() {
                    assert(next[q] == table[q + 1]);
                    text_before_is_strict_order(other, key, next[q].0);
                    text_before_is_strict_order(other, next[q].0, other);
                }
                lemma_slot_is(next, other, 0, q);
            } else {
                assert forall|k: int| 0 <= k < q - 1 implies text_before(
                    #[trigger] next[k].0,
                    other,
                ) by {
                    assert(next[k] == table[if k < p {
                        k
                    } else {
                        k + 1
                    }]);
                }
                if q - 1 < next.len() {
                    assert(next[q - 1] == table[q]);
                }
                lemma_slot_is(next, other, 0, q - 1);
            }
        }
    }
}

/// A table that is keyed and ordered by text.
#[derive(Debug)]
pub struct Table<V> {
    items: Vec<(String, V)>,
}

impl<V: View> View for Table<V> {
    type V = Seq<(Seq<char>, V::V)>;

    closed spec fn view(&self) -> Seq<(Seq<char>, V::V)> {
        self.items@.map_values(|item: (String, V)| (item.0@, item.1@))
    }
}

impl<V: View> Table<V> {
    /// Builds an empty table.
    pub fn new() -> (r: Table<V>)
        ensures
            r@ == Seq::<(Seq<char>, V::V)>::empty(),
    {
        let table = Table { items: Vec::new() };
        assert(table@ =~= Seq::<(Seq<char>, V::V)>::empty());
        table
    }

    /// Returns the number of entries.
    pub fn len(&self) -> (r: usize)
        ensures
            r == self@.len(),
    {
        self.items.len()
    }

    /// Returns the key at a position.
    pub fn key(&self, i: usize) -> (r: &str)
        requires
            i < self@.len(),
        ensures
            r@ == self@[i as int].0,
    {
        self.items[i].0.as_str()
    }

    /// Returns the value at a position.
    pub fn value(&self, i: usize) -> (r: &V)
        requires
            i < self@.len(),
        ensures
            r@ == self@[i as int].1,
    {
        &self.items[i].1
    }

    fn position(&self, key: &str) -> (r: usize)
        ensures
            r == slot(self@, key@, 0),
            r <= self.items@.len(),
            self@.len() == self.items@.len(),
    {
        let ghost all = self@;
        let mut i: usize = 0;
        while i < self.items.len() && before(self.items[i].0.as_str(), key)
            invariant
                i <= self.items@.len(),
                all == self@,
                all.len() == self.items@.len(),
                slot(all, key@, 0) == slot(all, key@, i as int),
            decreases self.items@.len() - i,
        {
            assert(all[i as int].0 == self.items@[i as int].0@);
            i += 1;
        }
        if i < self.items.len() {
            assert(all[i as int].0 == self.items@[i as int].0@);
        }
        i
    }

    /// Returns the value of a key.
    pub fn get(&self, key: &str) -> (r: Option<&V>)
        ensures
            match r {
                Some(value) => lookup(self@, key@) == Some(value@),
                None => lookup(self@, key@) is None,
            },
    {
        let p: usize = self.position(key);
        if p < self.items.len() {
            assert(self@[p as int] == (self.items@[p as int].0@, self.items@[p as int].1@));
            if str_eq(self.items[p].0.as_str(), key) {
                return Some(&self.items[p].1);
            }
        }
        None
    }

    /// Returns whether the table has a key.
    pub fn contains(&self, key: &str) -> (r: bool)
        ensures
            r == has_key(self@, key@),
            r == (lookup(self@, key@) is Some),
    {
        self.get(key).is_some()
    }

    /// Puts a value for a key.
    pub fn insert(&mut self, key: String, value: V)
        ensures
            final(self)@ == put(old(self)@, key@, value@),
    {
        let ghost all = self@;
        let ghost entry = (key@, value@);
        let p: usize = self.position(key.as_str());
        if p < self.items.len() {
            assert(all[p as int] == (self.items@[p as int].0@, self.items@[p as int].1@));
            if str_eq(self.items[p].0.as_str(), key.as_str()) {
                self.items.set(p, (key, value));
                assert(self@ =~= all.update(p as int, entry));
                return ;
            }
        }
        self.items.insert(p, (key, value));
        assert(self@ =~= all.insert(p as int, entry));
    }

    /// Takes a key and its value out of the table.
    pub fn remove(&mut self, key: &str) -> (r: Option<V>)
        ensures
            final(self)@ == without(old(self)@, key@),
            match r {
                Some(value) => lookup(old(self)@, key@) == Some(value@),
                None => lookup(old(self)@, key@) is None,
            },
    {
        let ghost all = self@;
        let p: usize = self.position(key);
        if p < self.items.len() {
            assert(all[p as int] == (self.items@[p as int].0@, self.items@[p as int].1@));
            if str_eq(self.items[p].0.as_str(), key) {
                let (_, value) = self.items.remove(p);
                assert(self@ =~= all.remove(p as int));
                return Some(value);
            }
        }
        None
    }

    /// Puts an entry behind the others.
    pub(crate) fn push_last(&mut self, key: String, value: V)
        ensures
            final(self)@ == old(self)@.push((key@, value@)),
    {
        let ghost goal = self@.push((key@, value@));
        self.items.push((key, value));
        assert(self@ =~= goal);
    }

    /// Replaces the value at a position.
    pub fn replace(&mut self, i: usize, value: V)
        requires
            i < old(self)@.len(),
        ensures
            final(self)@ == old(self)@.update(i as int, (old(self)@[i as int].0, value@)),
    {
        let ghost all = self@;
        let ghost goal = all.update(i as int, (all[i as int].0, value@));
        let key = self.items[i].0.clone();
        self.items.set(i, (key, value));
        assert(self@ =~= goal);
    }
}

} // verus!
