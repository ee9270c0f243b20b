//! A map whose keys are strings.

use vstd::prelude::*;

verus! {

/// Some entry has the key `key`.
pub open spec fn has_name<V>(entries: Seq<(String, V)>, key: Seq<char>) -> bool {
    exists|i: int| 0 <= i < entries.len() && (#[trigger] entries[i]).0@ == key
}

/// Where the entry with the key `key` stands.
pub open spec fn index_of_name<V>(entries: Seq<(String, V)>, key: Seq<char>) -> int {
    choose|i: int| 0 <= i < entries.len() && (#[trigger] entries[i]).0@ == key
}

/// The entries as a map.
pub open spec fn named_map<V>(entries: Seq<(String, V)>) -> Map<Seq<char>, V> {
    Map::new(|key: Seq<char>| has_name(entries, key), |key: Seq<char>| entries[index_of_name(entries, key)].1)
}

/// No key occurs twice.
pub open spec fn names_distinct<V>(entries: Seq<(String, V)>) -> bool {
    forall|i: int, j: int| 0 <= i < j < entries.len() ==> (#[trigger] entries[i]).0@ != (#[trigger] entries[j]).0@
}

/// A map whose keys are strings. Keys stay in the order in which they came.
#[derive(Debug)]
pub struct StringMap<V> {
    entries: Vec<(String, V)>,
}

impl<V> View for StringMap<V> {
    type V = Map<Seq<char>, V>;

    closed spec fn view(&self) -> Map<Seq<char>, V> {
        named_map(self.entries@)
    }
}

pub proof fn lemma_named<V>(entries: Seq<(String, V)>, i: int)
    requires
        names_distinct(entries),
        0 <= i < entries.len(),
    ensures
        index_of_name(entries, entries[i].0@) == i,
        named_map(entries).contains_key(entries[i].0@),
        named_map(entries)[entries[i].0@] == entries[i].1,
{
    let k = index_of_name(entries, entries[i].0@);
    assert(0 <= k < entries.len() && entries[k].0@ == entries[i].0@);
}

impl<V> StringMap<V> {
    /// No key occurs twice.
    pub closed spec fn wf(&self) -> bool {
        names_distinct(self.entries@)
    }

    /// The entries in order.
    pub closed spec fn spec_entries(&self) -> Seq<(String, V)> {
        self.entries@
    }

    /// An empty map.
    pub fn new() -> (r: StringMap<V>)
        ensures
            r.wf(),
            r@ == Map::<Seq<char>, V>::empty(),
            r.spec_entries().len() == 0,
    {
        let r = StringMap { entries: Vec::new() };
        proof {
            assert(r@ =~= Map::<Seq<char>, V>::empty());
        }
        r
    }

    /// Where the key stands.
    fn find(&self, key: &str) -> (r: Option<usize>)
        requires
            self.wf(),
        ensures
            match r {
                Some(i) => i < self.entries@.len() && self.entries@[i as int].0@ == key@ && self@.contains_key(
                    key@,
                ) && self@[key@] == self.entries@[i as int].1,
                None => !self@.contains_key(key@),
            },
    {
        let wanted: String = key.to_owned();
        let mut i: usize = 0;
        while i < self.entries.len()
            invariant
                i <= self.entries@.len(),
                self.wf(),
                wanted@ == key@,
                forall|j: int| 0 <= j < i ==> (#[trigger] self.entries@[j]).0@ != key@,
            decreases self.entries@.len() - i,
        {
            if self.entries[i].0 == wanted {
                proof {
                    lemma_named(self.entries@, i as int);
                }
                return Some(i);
            }
            i = i + 1;
        }
        None
    }

    /// What is stored under `key`.
    pub fn get(&self, key: &str) -> (r: Option<&V>)
        requires
            self.wf(),
        ensures
            match r {
                Some(v) => self@.contains_key(key@) && self@[key@] == *v,
                None => !self@.contains_key(key@),
            },
    {
        match self.find(key) {
            Some(i) => Some(&self.entries[i].1),
            None => None,
        }
    }

    /// Whether something is stored under `key`.
    pub fn contains_key(&self, key: &str) -> (r: bool)
        requires
            self.wf(),
        ensures
            r == self@.contains_key(key@),
    {
        self.find(key).is_some()
    }

    /// Stores `value` under `key` in place of what was there.
    pub fn insert(&mut self, key: String, value: V)
        requires
            old(self).wf(),
        ensures
            final(self).wf(),
            final(self)@ == old(self)@.insert(key@, value),
    {
        self.remove(key.as_str());
        let ghost before = self.entries@;
        self.entries.push((key, value));
        proof {
            let after = self.entries@;
            let n = before.len() as int;
            assert forall|i: int, j: int| 0 <= i < j < after.len() implies (#[trigger] after[i]).0@ != (
            #[trigger] after[j]).0@ by {
                if j == n {
                    lemma_named(before, i);
                }
            }
            lemma_named(after, n);
            assert forall|k: Seq<char>| has_name(after, k) == (k == key@ || has_name(before, k)) by {
                if has_name(before, k) {
                    let p = index_of_name(before, k);
                    assert(after[p].0@ == k);
                }
                if has_name(after, k) && k != key@ {
                    let p = index_of_name(after, k);
                    assert(before[p].0@ == k);
                }
            }
            assert forall|k: Seq<char>| has_name(before, k) implies #[trigger] named_map(after)[k] == named_map(
                before,
            )[k] by {
                let p = index_of_name(before, k);
                lemma_named(before, p);
                assert(after[p] == before[p]);
                lemma_named(after, p);
            }
            assert(named_map(after) =~= named_map(before).insert(key@, value));
            assert(self@ =~= old(self)@.insert(key@, value));
        }
    }

    /// Removes what is stored under `key`.
    pub fn remove(&mut self, key: &str)
        requires
            old(self).wf(),
        ensures
            final(self).wf(),
            final(self)@ == old(self)@.remove(key@),
    {
        let ghost before = self.entries@;
        match self.find(key) {
            None => {
                proof {
                    assert(self@ =~= old(self)@.remove(key@));
                }
            },
            Some(i) => {
                self.entries.remove(i);
                proof {
                    let after = self.entries@;
                    let i = i as int;
                    assert forall|x: int, y: int| 0 <= x < y < after.len() implies (#[trigger] after[x]).0@ != (
                    #[trigger] after[y]).0@ by {
                        let bx = if x < i {
                            x
                        } else {
                            x + 1
                        };
                        let by_ = if y < i {
                            y
                        } else {
                            y + 1
                        };
                        assert(after[x] == before[bx] && after[y] == before[by_]);
                    }
                    lemma_named(before, i);
                    assert forall|k: Seq<char>| has_name(after, k) == (k != key@ && has_name(before, k)) by {
                        if has_name(before, k) && k != key@ {
                            let p = index_of_name(before, k);
                            let ap = if p < i {
                                p
                            } else {
                                p - 1
                            };
                            assert(after[ap].0@ == k);
                        }
                        if has_name(after, k) {
                            let p = index_of_name(after, k);
                            let bp = if p < i {
                                p
                            } else {
                                p + 1
                            };
                            assert(before[bp].0@ == k);
                            assert(before[bp].0@ != before[i].0@) by {
                                lemma_named(before, bp);
                            }
                        }
                    }
                    assert forall|k: Seq<char>| has_name(after, k) implies #[trigger] named_map(after)[k]
                        == named_map(before)[k] by {
                        let p = index_of_name(before, k);
                        lemma_named(before, p);
                        let ap = if p < i {
                            p
                        } else {
                            p - 1
                        };
                        assert(after[ap] == before[p]);
                        lemma_named(after, ap);
                    }
                    assert(named_map(after) =~= named_map(before).remove(key@));
                }
            },
        }
    }

    /// How many keys there are.
    pub fn len(&self) -> (r: usize)
        ensures
            r == self.spec_entries().len(),
    {
        self.entries.len()
    }

    /// The entry at position `i`.
    pub fn entry(&self, i: usize) -> (r: &(String, V))
        requires
            self.wf(),
            i < self.spec_entries().len(),
        ensures
            *r == self.spec_entries()[i as int],
            self@.contains_key(r.0@),
            self@[r.0@] == r.1,
    {
        proof {
            lemma_named(self.entries@, i as int);
        }
        &self.entries[i]
    }

    /// Every key stands at one position, and only there.
    pub proof fn lemma_entries(&self)
        requires
            self.wf(),
        ensures
            names_distinct(self.spec_entries()),
            self@ == named_map(self.spec_entries()),
    {
    }
}

} // verus!
