//! A table of records by text key.
use crate::text;
use vstd::prelude::*;

verus! {

/// One record of a table.
pub struct TableEntry<T> {
    pub key: String,
    pub value: T,
}

/// A table of records, one for each key.
pub struct Table<T> {
    pub entries: Vec<TableEntry<T>>,
}

/// The keys of the entries, in order.
pub open spec fn keys_of<T>(v: Seq<TableEntry<T>>) -> Seq<Seq<char>> {
    Seq::new(v.len(), |i: int| v[i].key@)
}

impl<T> Table<T> {
    /// No key has two records.
    pub open spec fn wf(&self) -> bool {
        keys_of(self.entries@).no_duplicates()
    }
}

/// Where an entry of a key stands.
pub open spec fn entry_index<T>(v: Seq<TableEntry<T>>, key: Seq<char>) -> int {
    choose|i: int| 0 <= i < v.len() && (#[trigger] v[i]).key@ == key
}

impl<T> View for Table<T> {
    type V = Map<Seq<char>, T>;

    open spec fn view(&self) -> Map<Seq<char>, T> {
        Map::new(
            |k: Seq<char>|
                exists|i: int|
                    0 <= i < self.entries@.len() && (#[trigger] self.entries@[i]).key@ == k,
            |k: Seq<char>| self.entries@[entry_index(self.entries@, k)].value,
        )
    }
}

/// The record of an entry's key is the one in the entry.
pub proof fn lemma_record_at<T>(t: Table<T>, i: int)
    requires
        t.wf(),
        0 <= i < t.entries@.len(),
    ensures
        t@.contains_key(t.entries@[i].key@),
        t@[t.entries@[i].key@] == t.entries@[i].value,
{
    let v = t.entries@;
    let key = v[i].key@;
    let c = entry_index(v, key);
    assert(v[i].key@ == key);
    assert(0 <= c < v.len() && v[c].key@ == key);
    assert(keys_of(v)[c] == keys_of(v)[i]);
}

/// A table has as many keys as entries.
pub proof fn lemma_table_size<T>(t: Table<T>)
    requires
        t.wf(),
    ensures
        t@.dom().finite(),
        t@.dom().len() == t.entries@.len(),
{
    let keys = keys_of(t.entries@);
    keys.unique_seq_to_set();
    assert(t@.dom() =~= keys.to_set()) by {
        assert forall|k: Seq<char>| t@.dom().contains(k) implies keys.to_set().contains(k) by {
            let i = choose|i: int|
                0 <= i < t.entries@.len() && (#[trigger] t.entries@[i]).key@ == k;
            assert(keys[i] == k);
        }
        assert forall|k: Seq<char>| keys.to_set().contains(k) implies t@.dom().contains(k) by {
            let i = choose|i: int| 0 <= i < keys.len() && keys[i] == k;
            assert(t.entries@[i].key@ == k);
        }
    }
}

impl<T> Table<T> {
    /// A table without records.
    pub fn new() -> (r: Table<T>)
        ensures
            r.wf(),
            r@ == Map::<Seq<char>, T>::empty(),
    {
        let r = Table { entries: Vec::new() };
        assert(r@ =~= Map::<Seq<char>, T>::empty());
        r
    }

    /// The number of records.
    pub fn len(&self) -> (n: usize)
        requires
            self.wf(),
        ensures
            n == self@.dom().len(),
    {
        proof {
            lemma_table_size(*self);
        }
        self.entries.len()
    }

    /// Where the record of a key stands.
    pub fn position(&self, key: &str) -> (r: Option<usize>)
        requires
            self.wf(),
        ensures
            match r {
                Some(i) => i < self.entries@.len() && self.entries@[i as int].key@ == key@
                    && self@.contains_key(key@) && self@[key@] == self.entries@[i as int].value,
                None => !self@.contains_key(key@),
            },
    {
        let mut i: usize = 0;
        while i < self.entries.len()
            invariant
                i <= self.entries@.len(),
                self.wf(),
                forall|j: int| 0 <= j < i ==> (#[trigger] self.entries@[j]).key@ != key@,
            decreases self.entries@.len() - i,
        {
            if text::same(self.entries[i].key.as_str(), key) {
                proof {
                    lemma_record_at(*self, i as int);
                }
                return Some(i);
            }
            i += 1;
        }
        None
    }

    /// Puts a record in place of the one that stands at a position.
    pub fn replace_at(&mut self, i: usize, value: T)
        requires
            old(self).wf(),
            i < old(self).entries@.len(),
        ensures
            final(self).wf(),
            final(self)@ == old(self)@.insert(old(self).entries@[i as int].key@, value),
    {
        let ghost before = *self;
        let ghost key = self.entries@[i as int].key@;
        self.entries[i].value = value;
        proof {
            let v = self.entries@;
            assert(keys_of(v) =~= keys_of(before.entries@));
            assert forall|k: Seq<char>| #[trigger] self@.contains_key(k) == before@.insert(
                key,
                value,
            ).contains_key(k) by {
                if self@.contains_key(k) {
                    let j = choose|j: int| 0 <= j < v.len() && (#[trigger] v[j]).key@ == k;
                    assert(before.entries@[j].key@ == k);
                }
                if before@.contains_key(k) {
                    let j = choose|j: int|
                        0 <= j < before.entries@.len() && (#[trigger] before.entries@[j]).key@ == k;
                    assert(v[j].key@ == k);
                }
                assert(v[i as int].key@ == key);
            }
            assert forall|k: Seq<char>| self@.contains_key(k) implies #[trigger] self@[k]
                == before@.insert(key, value)[k] by {
                let j = choose|j: int| 0 <= j < v.len() && (#[trigger] v[j]).key@ == k;
                lemma_record_at(*self, j);
                lemma_record_at(before, j);
                if k == key {
                    lemma_record_at(*self, i as int);
                }
            }
            assert(self@ =~= before@.insert(key, value));
        }
    }

    /// Adds the record of a key that has none.
    pub fn add(&mut self, key: String, value: T)
        requires
            old(self).wf(),
            !old(self)@.contains_key(key@),
        ensures
            final(self).wf(),
            final(self)@ == old(self)@.insert(key@, value),
    {
        let ghost before = *self;
        let ghost n = self.entries@.len() as int;
        self.entries.push(TableEntry { key, value });
        proof {
            let v = self.entries@;
            let old_v = before.entries@;
            assert(v[n].key@ == key@);
            assert forall|i: int| 0 <= i < n implies (#[trigger] v[i]).key@ != key@ by {
                assert(v[i] == old_v[i]);
                if old_v[i].key@ == key@ {
                    assert(before@.contains_key(key@));
                }
            }
            assert(keys_of(v).no_duplicates()) by {
                assert forall|i: int, j: int| 0 <= i < v.len() && 0 <= j < v.len() && i
                    != j implies keys_of(v)[i] != keys_of(v)[j] by {
                    if i < n && j < n {
                        assert(keys_of(old_v)[i] != keys_of(old_v)[j]);
                        assert(v[i] == old_v[i] && v[j] == old_v[j]);
                    } else if i < n {
                        assert(v[i].key@ != key@);
                    } else {
                        assert(v[j].key@ != key@);
                    }
                }
            }
            assert forall|k: Seq<char>| #[trigger] self@.contains_key(k) == before@.insert(
                key@,
                value,
            ).contains_key(k) by {
                if self@.contains_key(k) && k != key@ {
                    let j = choose|j: int| 0 <= j < v.len() && (#[trigger] v[j]).key@ == k;
                    assert(old_v[j].key@ == k);
                }
                if before@.contains_key(k) {
                    let j = choose|j: int| 0 <= j < old_v.len() && (#[trigger] old_v[j]).key@ == k;
                    assert(v[j].key@ == k);
                }
            }
            assert forall|k: Seq<char>| self@.contains_key(k) implies #[trigger] self@[k]
                == before@.insert(key@, value)[k] by {
                let j = choose|j: int| 0 <= j < v.len() && (#[trigger] v[j]).key@ == k;
                lemma_record_at(*self, j);
                if j < n {
                    lemma_record_at(before, j);
                    assert(v[j] == old_v[j]);
                }
            }
            assert(self@ =~= before@.insert(key@, value));
        }
    }

    /// Takes away the record that stands at a position.
    pub fn remove_at(&mut self, i: usize)
        requires
            old(self).wf(),
            i < old(self).entries@.len(),
        ensures
            final(self).wf(),
            final(self).entries@ == old(self).entries@.remove(i as int),
            final(self)@ == old(self)@.remove(old(self).entries@[i as int].key@),
    {
        let ghost before = *self;
        let ghost key = self.entries@[i as int].key@;
        self.entries.remove(i);
        proof {
            let v = self.entries@;
            let old_v = before.entries@;
            assert forall|j: int| 0 <= j < v.len() implies (#[trigger] v[j]).key@ != key && v[j]
                == old_v[if j < i {
                j
            } else {
                j + 1
            }] by {
                let o = if j < i {
                    j
                } else {
                    j + 1
                };
                assert(v[j] == old_v[o]);
                assert(keys_of(old_v)[o] != keys_of(old_v)[i as int]);
            }
            assert(keys_of(v).no_duplicates()) by {
                assert forall|a: int, b: int| 0 <= a < v.len() && 0 <= b < v.len() && a
                    != b implies keys_of(v)[a] != keys_of(v)[b] by {
                    let oa = if a < i {
                        a
                    } else {
                        a + 1
                    };
                    let ob = if b < i {
                        b
                    } else {
                        b + 1
                    };
                    assert(v[a] == old_v[oa] && v[b] == old_v[ob]);
                    assert(keys_of(old_v)[oa] != keys_of(old_v)[ob]);
                }
            }
            assert forall|k: Seq<char>| #[trigger] self@.contains_key(k) == before@.remove(
                key,
            ).contains_key(k) by {
                if self@.contains_key(k) {
                    let j = choose|j: int| 0 <= j < v.len() && (#[trigger] v[j]).key@ == k;
                    let o = if j < i {
                        j
                    } else {
                        j + 1
                    };
                    assert(old_v[o].key@ == k);
                }
                if before@.contains_key(k) && k != key {
                    let o = choose|o: int| 0 <= o < old_v.len() && (#[trigger] old_v[o]).key@ == k;
                    let j = if o < i {
                        o
                    } else {
                        o - 1
                    };
                    assert(v[j].key@ == k);
                }
            }
            assert forall|k: Seq<char>| self@.contains_key(k) implies #[trigger] self@[k]
                == before@.remove(key)[k] by {
                let j = choose|j: int| 0 <= j < v.len() && (#[trigger] v[j]).key@ == k;
                let o = if j < i {
                    j
                } else {
                    j + 1
                };
                lemma_record_at(*self, j);
                lemma_record_at(before, o);
                assert(v[j] == old_v[o]);
            }
            assert(self@ =~= before@.remove(key));
        }
    }
}

} // verus!
