use vstd::prelude::*;
use crate::node::strings_view;
use crate::text::{copy_str, str_eq};

verus! {

/// Table name to column names, one entry per table name.
#[derive(Debug)]
pub struct ColumnMap {
    entries: Vec<(String, Vec<String>)>,
}

/// Each table's columns after `new` is merged into `acc`: those of `acc`, then
/// those of `new`.
pub open spec fn merge_columns_maps(
    acc: Map<Seq<char>, Seq<Seq<char>>>,
    new: Map<Seq<char>, Seq<Seq<char>>>,
) -> Map<Seq<char>, Seq<Seq<char>>> {
    Map::new(
        |k: Seq<char>| acc.contains_key(k) || new.contains_key(k),
        |k: Seq<char>| (if acc.contains_key(k) { acc[k] } else { Seq::empty() }) + (if new.contains_key(k) { new[k] } else { Seq::empty() }),
    )
}

/// The state after the first `k` keys of `new` have been merged into `acc`.
spec fn result_inv(
    acc: Map<Seq<char>, Seq<Seq<char>>>,
    new: Map<Seq<char>, Seq<Seq<char>>>,
    keys: Seq<Seq<char>>,
    k: int,
    cur: Map<Seq<char>, Seq<Seq<char>>>,
) -> bool {
    cur == merge_columns_maps(acc, new.restrict(Set::new(|key: Seq<char>| exists|j: int| 0 <= j < k && keys[j] == key)))
}

impl ColumnMap {
    /// The table names, in the order their entries were made.
    pub closed spec fn keys(&self) -> Seq<Seq<char>> {
        self.entries@.map_values(|e: (String, Vec<String>)| e.0@)
    }

    /// No table name has two entries.
    pub closed spec fn wf(&self) -> bool {
        self.keys().no_duplicates()
    }

    /// The entry of table `k`.
    closed spec fn slot(&self, k: Seq<char>) -> int {
        choose|i: int| 0 <= i < self.entries@.len() && self.entries@[i].0@ == k
    }

    /// The map from table names to their columns.
    pub closed spec fn view(&self) -> Map<Seq<char>, Seq<Seq<char>>> {
        Map::new(
            |k: Seq<char>| self.keys().contains(k),
            |k: Seq<char>| strings_view(self.entries@[self.slot(k)].1@),
        )
    }

    proof fn lemma_slot(&self, k: Seq<char>, i: int)
        requires
            self.wf(),
            0 <= i < self.entries@.len(),
            self.entries@[i].0@ == k,
        ensures
            self.slot(k) == i,
            self.keys().contains(k),
    {
        let j = self.slot(k);
        assert(self.keys()[i] == k);
        assert(0 <= j < self.entries@.len() && self.entries@[j].0@ == k);
        assert(self.keys()[j] == k);
    }

    /// An empty map.
    pub fn new() -> (m: Self)
        ensures
            m.wf(),
            m@ == Map::<Seq<char>, Seq<Seq<char>>>::empty(),
    {
        let m = ColumnMap { entries: Vec::new() };
        proof {
            assert(m.keys() =~= Seq::<Seq<char>>::empty());
            assert(m@ =~= Map::<Seq<char>, Seq<Seq<char>>>::empty());
        }
        m
    }

    fn find(&self, key: &str) -> (r: Option<usize>)
        requires
            self.wf(),
        ensures
            match r {
                Some(i) => i < self.entries@.len() && self.entries@[i as int].0@ == key@ && self.slot(key@) == i
                    && self.keys().contains(key@),
                None => !self.keys().contains(key@),
            },
    {
        let mut i: usize = 0;
        while i < self.entries.len()
            invariant
                self.wf(),
                i <= self.entries@.len(),
                forall|j: int| 0 <= j < i ==> self.entries@[j].0@ != key@,
            decreases self.entries@.len() - i,
        {
            if str_eq(self.entries[i].0.as_str(), key) {
                proof {
                    self.lemma_slot(key@, i as int);
                }
                return Some(i);
            }
            i = i + 1;
        }
        proof {
            if self.keys().contains(key@) {
                let j = choose|j: int| 0 <= j < self.keys().len() && self.keys()[j] == key@;
                assert(self.entries@[j].0@ == key@);
            }
        }
        None
    }

    /// The columns of table `key`, if it has an entry.
    pub fn get(&self, key: &str) -> (r: Option<&Vec<String>>)
        requires
            self.wf(),
        ensures
            match r {
                Some(v) => self@.contains_key(key@) && strings_view(v@) == self@[key@],
                None => !self@.contains_key(key@),
            },
    {
        match self.find(key) {
            Some(i) => Some(&self.entries[i].1),
            None => None,
        }
    }

    /// The entries, table name and columns, in the order they were made.
    pub fn entries(&self) -> (r: &Vec<(String, Vec<String>)>)
        requires
            self.wf(),
        ensures
            r@.map_values(|e: (String, Vec<String>)| e.0@) == self.keys(),
            r@.map_values(|e: (String, Vec<String>)| e.0@).no_duplicates(),
            forall|i: int| 0 <= i < r@.len() ==> #[trigger] self@.contains_key(r@[i].0@) && self@[r@[i].0@] == strings_view(r@[i].1@),
            forall|k: Seq<char>| self@.contains_key(k) ==> exists|i: int| 0 <= i < r@.len() && r@[i].0@ == k,
    {
        proof {
            assert forall|i: int| 0 <= i < self.entries@.len() implies #[trigger] self@.contains_key(self.entries@[i].0@) && self@[self.entries@[i].0@] == strings_view(self.entries@[i].1@) by {
                self.lemma_slot(self.entries@[i].0@, i);
            }
            assert forall|k: Seq<char>| self@.contains_key(k) implies exists|i: int| 0 <= i < self.entries@.len() && self.entries@[i].0@ == k by {
                let j = choose|j: int| 0 <= j < self.keys().len() && self.keys()[j] == k;
                assert(self.entries@[j].0@ == k);
            }
        }
        &self.entries
    }

    proof fn lemma_after_set(&self, other: &Self, i: int, key: Seq<char>, cols: Seq<Seq<char>>)
        requires
            self.wf(),
            0 <= i < self.entries@.len(),
            self.entries@[i].0@ == key,
            other.entries@.len() == self.entries@.len(),
            other.entries@[i].0@ == key,
            strings_view(other.entries@[i].1@) == cols,
            forall|j: int| 0 <= j < self.entries@.len() && j != i ==> other.entries@[j] == self.entries@[j],
        ensures
            other.wf(),
            other@ == self@.insert(key, cols),
    {
        assert(other.keys() =~= self.keys());
        assert forall|k: Seq<char>| #![trigger other@.contains_key(k)] other@.contains_key(k) implies other@[k] == self@.insert(key, cols)[k] by {
            let j = choose|j: int| 0 <= j < other.keys().len() && other.keys()[j] == k;
            other.lemma_slot(k, j);
            if j != i {
                assert(other.entries@[j] == self.entries@[j]);
                self.lemma_slot(k, j);
                assert(k != key) by {
                    assert(self.keys()[j] != self.keys()[i]);
                }
            }
        }
        self.lemma_slot(key, i);
        assert(other@.dom() =~= self@.insert(key, cols).dom());
        assert(other@ =~= self@.insert(key, cols));
    }

    proof fn lemma_after_push(&self, other: &Self, key: Seq<char>, cols: Seq<Seq<char>>)
        requires
            self.wf(),
            !self.keys().contains(key),
            other.entries@.len() == self.entries@.len() + 1,
            other.entries@.last().0@ == key,
            strings_view(other.entries@.last().1@) == cols,
            forall|j: int| 0 <= j < self.entries@.len() ==> other.entries@[j] == self.entries@[j],
        ensures
            other.wf(),
            other@ == self@.insert(key, cols),
    {
        assert(other.keys() =~= self.keys().push(key));
        assert(other.wf()) by {
            assert forall|a: int, b: int| 0 <= a < b < other.keys().len() implies other.keys()[a] != other.keys()[b] by {
                if b == self.keys().len() {
                    assert(self.keys()[a] == other.keys()[a]);
                }
            }
        }
        let n = self.entries@.len() as int;
        assert forall|k: Seq<char>| #![trigger other@.contains_key(k)] other@.contains_key(k) implies other@[k] == self@.insert(key, cols)[k] by {
            let j = choose|j: int| 0 <= j < other.keys().len() && other.keys()[j] == k;
            other.lemma_slot(k, j);
            if j < n {
                self.lemma_slot(k, j);
            }
        }
        other.lemma_slot(key, n);
        assert forall|k: Seq<char>| other.keys().contains(k) <==> (self.keys().contains(k) || k == key) by {
            if other.keys().contains(k) {
                let j = choose|j: int| 0 <= j < other.keys().len() && other.keys()[j] == k;
                if j < n {
                    assert(self.keys()[j] == k);
                }
            }
            if self.keys().contains(k) {
                let j = choose|j: int| 0 <= j < self.keys().len() && self.keys()[j] == k;
                assert(other.keys()[j] == k);
            }
        }
        assert(other@.dom() =~= self@.insert(key, cols).dom());
        assert(other@ =~= self@.insert(key, cols));
    }

    /// Sets the columns of table `key`, replacing any it had.
    pub fn insert(&mut self, key: String, columns: Vec<String>)
        requires
            old(self).wf(),
        ensures
            final(self).wf(),
            final(self)@ == old(self)@.insert(key@, strings_view(columns@)),
    {
        let ghost old_self = *self;
        let ghost k = key@;
        let ghost c = strings_view(columns@);
        match self.find(key.as_str()) {
            Some(i) => {
                self.entries.set(i, (key, columns));
                proof {
                    old_self.lemma_after_set(self, i as int, k, c);
                }
            },
            None => {
                self.entries.push((key, columns));
                proof {
                    old_self.lemma_after_push(self, k, c);
                }
            },
        }
    }

    /// Appends columns to those of table `key`, making its entry when it has none.
    pub fn extend_entry(&mut self, key: String, columns: Vec<String>)
        requires
            old(self).wf(),
        ensures
            final(self).wf(),
            final(self)@ == old(self)@.insert(
                key@,
                if old(self)@.contains_key(key@) {
                    old(self)@[key@] + strings_view(columns@)
                } else {
                    strings_view(columns@)
                },
            ),
    {
        let ghost old_self = *self;
        let ghost k = key@;
        match self.find(key.as_str()) {
            Some(i) => {
                let mut merged = self.entries[i].1.clone();
                let ghost before = merged@;
                let mut extra = columns;
                let ghost extra0 = extra@;
                merged.append(&mut extra);
                proof {
                    assert(strings_view(merged@) =~= strings_view(before) + strings_view(extra0));
                    assert(strings_view(before) =~= strings_view(old_self.entries@[i as int].1@));
                    old_self.lemma_slot(k, i as int);
                }
                let ghost c = strings_view(merged@);
                self.entries.set(i, (key, merged));
                proof {
                    old_self.lemma_after_set(self, i as int, k, c);
                }
            },
            None => {
                let ghost c = strings_view(columns@);
                self.entries.push((key, columns));
                proof {
                    old_self.lemma_after_push(self, k, c);
                }
            },
        }
    }

    /// Merges `other` in: each table's columns in `other` are appended to those it
    /// has here, and tables new here get an entry.
    pub fn merge_from(&mut self, other: &ColumnMap)
        requires
            old(self).wf(),
            other.wf(),
        ensures
            final(self).wf(),
            final(self)@ == merge_columns_maps(old(self)@, other@),
    {
        let ghost acc = self@;
        let ghost new = other@;
        let mut k: usize = 0;
        proof {
            let none = Set::new(|key: Seq<char>| exists|j: int| 0 <= j < 0 && other.keys()[j] == key);
            assert(none =~= Set::empty());
            assert(merge_columns_maps(acc, new.restrict(none)) =~= acc);
        }
        while k < other.entries.len()
            invariant
                k <= other.entries@.len(),
                self.wf(),
                other.wf(),
                new == other@,
                result_inv(acc, new, other.keys(), k as int, self@),
            decreases other.entries@.len() - k,
        {
            let ghost done = Set::new(|key: Seq<char>| exists|j: int| 0 <= j < k && other.keys()[j] == key);
            let ghost done1 = Set::new(|key: Seq<char>| exists|j: int| 0 <= j < k + 1 && other.keys()[j] == key);
            let ghost key = other.keys()[k as int];
            proof {
                assert(done1 =~= done.insert(key));
                assert(!done.contains(key)) by {
                    if done.contains(key) {
                        let j = choose|j: int| 0 <= j < k && other.keys()[j] == key;
                        assert(other.keys()[j] == other.keys()[k as int]);
                    }
                }
                other.lemma_slot(key, k as int);
                assert(new.contains_key(key));
                assert(new[key] == strings_view(other.entries@[k as int].1@));
            }
            let name = copy_str(other.entries[k].0.as_str());
            self.extend_entry(name, other.entries[k].1.clone());
            proof {
                assert(self@ =~= merge_columns_maps(acc, new.restrict(done1)));
            }
            k = k + 1;
        }
        proof {
            let all = Set::new(|key: Seq<char>| exists|j: int| 0 <= j < k && other.keys()[j] == key);
            assert forall|key: Seq<char>| new.contains_key(key) implies all.contains(key) by {
                let j = choose|j: int| 0 <= j < other.keys().len() && other.keys()[j] == key;
            }
            assert(new.restrict(all) =~= new);
        }
    }
}

} // verus!
