//! A small mapping from a text to a list of texts, kept in insertion order.

use crate::task::strings;
use crate::text::same_text;
use vstd::prelude::*;

verus! {

/// One key with its list.
#[derive(Debug, Clone)]
pub struct ListEntry {
    key: String,
    items: Vec<String>,
}

/// A mapping from a text to a list of texts. No key occurs twice.
#[derive(Debug, Clone)]
pub struct ListMap {
    entries: Vec<ListEntry>,
}

/// A mapping from texts to lists of texts, as mathematics has it.
pub type Lists = Map<Seq<char>, Seq<Seq<char>>>;

/// `m` with `item` at the end of the list of `key`.
pub open spec fn append_item(m: Lists, key: Seq<char>, item: Seq<char>) -> Lists {
    m.insert(
        key,
        if m.contains_key(key) {
            m[key].push(item)
        } else {
            seq![item]
        },
    )
}

impl ListMap {
    /// The keys, in the order in which they were added.
    pub closed spec fn keys(&self) -> Seq<Seq<char>> {
        self.entries@.map_values(|e: ListEntry| e.key@)
    }

    /// The list of the `i`-th key.
    pub closed spec fn items_at(&self, i: int) -> Seq<Seq<char>> {
        strings(self.entries@[i].items@)
    }

    /// The invariant of the type.
    pub closed spec fn wf(&self) -> bool {
        self.keys().no_duplicates()
    }

    pub closed spec fn spec_index_of(&self, key: Seq<char>) -> int {
        choose|i: int| 0 <= i < self.keys().len() && self.keys()[i] == key
    }

    proof fn lemma_index_of(&self, i: int)
        requires
            self.wf(),
            0 <= i < self.entries@.len(),
        ensures
            self.keys().contains(self.keys()[i]),
            self.spec_index_of(self.keys()[i]) == i,
            self@.contains_key(self.keys()[i]),
            self@[self.keys()[i]] == self.items_at(i),
    {
        let key = self.keys()[i];
        let j = self.spec_index_of(key);
        assert(0 <= j < self.keys().len() && self.keys()[j] == key);
    }

    /// Every key stands at some index.
    pub proof fn lemma_key_index(&self, key: Seq<char>)
        requires
            self.wf(),
            self@.contains_key(key),
        ensures
            0 <= self.spec_index_of(key) < self.keys().len(),
            self.keys()[self.spec_index_of(key)] == key,
            self@[key] == self.items_at(self.spec_index_of(key)),
    {
        let j = self.spec_index_of(key);
        assert(0 <= j < self.keys().len() && self.keys()[j] == key);
    }

    /// The keys are the domain, each once.
    pub proof fn lemma_keys(&self)
        requires
            self.wf(),
        ensures
            self.keys().no_duplicates(),
            self.keys().to_set() == self@.dom(),
            self@.dom().finite(),
            self@.dom().len() == self.keys().len(),
    {
        self.keys().unique_seq_to_set();
        assert(self@.dom() =~= self.keys().to_set());
    }
}

impl View for ListMap {
    type V = Lists;

    closed spec fn view(&self) -> Lists {
        Map::new(
            |k: Seq<char>| self.keys().contains(k),
            |k: Seq<char>| self.items_at(self.spec_index_of(k)),
        )
    }
}

impl ListMap {
    /// The empty mapping.
    pub fn new() -> (r: ListMap)
        ensures
            r.wf(),
            r@ == Map::<Seq<char>, Seq<Seq<char>>>::empty(),
    {
        let r = ListMap { entries: Vec::new() };
        assert(r@ =~= Map::<Seq<char>, Seq<Seq<char>>>::empty());
        r
    }

    /// The number of keys.
    pub fn len(&self) -> (r: usize)
        requires
            self.wf(),
        ensures
            r == self@.dom().len(),
            r == self.keys().len(),
            self@.dom().finite(),
    {
        proof {
            self.lemma_keys();
        }
        self.entries.len()
    }

    /// Whether there is no key.
    pub fn is_empty(&self) -> (r: bool)
        requires
            self.wf(),
        ensures
            r == (self@ == Map::<Seq<char>, Seq<Seq<char>>>::empty()),
    {
        proof {
            if self.entries@.len() > 0 {
                self.lemma_index_of(0);
            } else {
                assert(self@ =~= Map::<Seq<char>, Seq<Seq<char>>>::empty());
            }
        }
        self.entries.len() == 0
    }

    fn position(&self, key: &str) -> (r: Option<usize>)
        ensures
            match r {
                Some(i) => i < self.entries@.len() && self.keys()[i as int] == key@,
                None => !self.keys().contains(key@),
            },
    {
        let mut i: usize = 0;
        while i < self.entries.len()
            invariant
                i <= self.entries.len(),
                forall|k: int| 0 <= k < i ==> self.keys()[k] != key@,
            decreases self.entries.len() - i,
        {
            if same_text(self.entries[i].key.as_str(), key) {
                return Some(i);
            }
            i += 1;
        }
        None
    }

    /// Whether `key` is present.
    pub fn contains_key(&self, key: &str) -> (r: bool)
        ensures
            r == self@.contains_key(key@),
    {
        self.position(key).is_some()
    }

    /// The list of `key`.
    pub fn get(&self, key: &str) -> (r: Option<&Vec<String>>)
        requires
            self.wf(),
        ensures
            match r {
                Some(list) => self@.contains_key(key@) && strings(list@) == self@[key@],
                None => !self@.contains_key(key@),
            },
    {
        match self.position(key) {
            Some(i) => {
                proof {
                    self.lemma_index_of(i as int);
                }
                Some(&self.entries[i].items)
            },
            None => None,
        }
    }

    /// The `i`-th key, in the order in which the keys were added.
    pub fn key_at(&self, i: usize) -> (r: &String)
        requires
            self.wf(),
            i < self.keys().len(),
        ensures
            r@ == self.keys()[i as int],
            self@.contains_key(r@),
    {
        proof {
            self.lemma_index_of(i as int);
        }
        &self.entries[i].key
    }

    /// The list of the `i`-th key.
    pub fn list_at(&self, i: usize) -> (r: &Vec<String>)
        requires
            self.wf(),
            i < self.keys().len(),
        ensures
            strings(r@) == self@[self.keys()[i as int]],
    {
        proof {
            self.lemma_index_of(i as int);
        }
        &self.entries[i].items
    }

    proof fn lemma_changed(self, before: ListMap, at: int, key: Seq<char>, list: Seq<Seq<char>>)
        requires
            before.wf(),
            0 <= at <= before.entries@.len(),
            at < before.entries@.len() ==> before.keys()[at] == key && self.keys()
                == before.keys(),
            at == before.entries@.len() ==> !before.keys().contains(key) && self.keys()
                == before.keys().push(key),
            self.items_at(at) == list,
            forall|i: int|
                0 <= i < before.entries@.len() && i != at ==> self.items_at(i) == before.items_at(
                    i,
                ),
        ensures
            self.wf(),
            self@ == before@.insert(key, list),
    {
        let n = before.entries@.len() as int;
        assert(self.keys().len() == self.entries@.len());
        assert(before.keys().len() == before.entries@.len());
        assert(self.keys()[at] == key);
        assert(self.wf());
        self.lemma_index_of(at);
        assert forall|k: Seq<char>| self.keys().contains(k) <==> (before.keys().contains(k) || k
            == key) by {
            if self.keys().contains(k) {
                let m = choose|m: int| 0 <= m < self.keys().len() && self.keys()[m] == k;
                if m < n {
                    assert(before.keys()[m] == k);
                }
            }
            if before.keys().contains(k) {
                let m = choose|m: int| 0 <= m < before.keys().len() && before.keys()[m] == k;
                assert(self.keys()[m] == k);
            }
        }
        assert forall|k: Seq<char>| before.keys().contains(k) && k != key implies self@[k]
            == before@[k] by {
            let m = before.spec_index_of(k);
            before.lemma_index_of(m);
            assert(self.keys()[m] == k);
            self.lemma_index_of(m);
        }
        assert(self@ =~= before@.insert(key, list));
    }

    /// Gives `key` the list `items`, in place of the one it had.
    pub fn insert(&mut self, key: &str, items: Vec<String>)
        requires
            old(self).wf(),
        ensures
            final(self).wf(),
            final(self)@ == old(self)@.insert(key@, strings(items@)),
    {
        let ghost before = *self;
        let ghost list = strings(items@);
        let entry = ListEntry { key: key.to_owned(), items };
        match self.position(key) {
            Some(i) => {
                self.entries.set(i, entry);
                proof {
                    assert(self.keys() =~= before.keys());
                    self.lemma_changed(before, i as int, key@, list);
                }
            },
            None => {
                self.entries.push(entry);
                proof {
                    assert(self.keys() =~= before.keys().push(key@));
                    self.lemma_changed(before, before.entries@.len() as int, key@, list);
                }
            },
        }
    }

    /// Puts `item` at the end of the list of `key`; a key that was absent
    /// gets the list of that one item.
    pub fn append(&mut self, key: &str, item: String)
        requires
            old(self).wf(),
        ensures
            final(self).wf(),
            final(self)@ == append_item(old(self)@, key@, item@),
    {
        let ghost before = *self;
        match self.position(key) {
            Some(i) => {
                proof {
                    before.lemma_index_of(i as int);
                }
                let mut entry = ListEntry { key: String::new(), items: Vec::new() };
                core::mem::swap(&mut entry, &mut self.entries[i]);
                let ghost old_items = strings(entry.items@);
                entry.items.push(item);
                assert(strings(entry.items@) =~= old_items.push(item@));
                self.entries.set(i, entry);
                proof {
                    assert(self.keys() =~= before.keys());
                    self.lemma_changed(before, i as int, key@, before@[key@].push(item@));
                }
            },
            None => {
                let mut items: Vec<String> = Vec::new();
                items.push(item);
                assert(strings(items@) =~= seq![item@]);
                self.entries.push(ListEntry { key: key.to_owned(), items });
                proof {
                    assert(self.keys() =~= before.keys().push(key@));
                    self.lemma_changed(before, before.entries@.len() as int, key@, seq![item@]);
                }
            },
        }
    }
}

} // verus!
