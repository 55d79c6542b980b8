//! Text kept by key: the rendered content that a preview server reads, and
//! the permalinks of the documents.

use vstd::prelude::*;
use vstd::string::*;
use crate::seqs::{distinct, first_index, is_first, lemma_first_index, lemma_first_unique};

verus! {

/// Text by key. A key holds at most one text: writing to a key that is
/// there replaces what it held.
#[derive(Debug)]
pub struct TextMap {
    entries: Vec<(String, String)>,
}

/// The keys of the entries, position by position.
pub open spec fn entry_keys(entries: Seq<(String, String)>) -> Seq<Seq<char>> {
    Seq::new(entries.len(), |i: int| entries[i].0@)
}

/// What the entries hold, by key; no key occurs twice in them.
pub open spec fn entries_map(entries: Seq<(String, String)>) -> Map<Seq<char>, Seq<char>> {
    Map::new(
        |k: Seq<char>| first_index(entry_keys(entries), k).is_some(),
        |k: Seq<char>| entries[first_index(entry_keys(entries), k).unwrap()].1@,
    )
}

impl View for TextMap {
    type V = Map<Seq<char>, Seq<char>>;

    closed spec fn view(&self) -> Map<Seq<char>, Seq<char>> {
        entries_map(self.entries@)
    }
}

impl TextMap {
    /// No key occurs twice among the entries.
    pub closed spec fn wf(&self) -> bool {
        distinct(entry_keys(self.entries@))
    }

    /// A map that holds nothing.
    pub fn new() -> (r: TextMap)
        ensures
            r.wf(),
            r@ == Map::<Seq<char>, Seq<char>>::empty(),
    {
        let r = TextMap { entries: Vec::new() };
        proof {
            lemma_first_index(entry_keys(r.entries@), Seq::<char>::empty());
            assert forall|k: Seq<char>| !entries_map(r.entries@).contains_key(k) by {
                lemma_first_index(entry_keys(r.entries@), k);
            }
            assert(r@ =~= Map::<Seq<char>, Seq<char>>::empty());
        }
        r
    }

    /// Forgets everything.
    pub fn clear(&mut self)
        ensures
            final(self).wf(),
            final(self)@ == Map::<Seq<char>, Seq<char>>::empty(),
    {
        self.entries = Vec::new();
        proof {
            assert forall|k: Seq<char>| !entries_map(self.entries@).contains_key(k) by {
                lemma_first_index(entry_keys(self.entries@), k);
            }
            assert(self@ =~= Map::<Seq<char>, Seq<char>>::empty());
        }
    }

    /// The position of the entry with the key `key`.
    fn find(&self, key: &String) -> (r: Option<usize>)
        ensures
            match r {
                Some(i) => first_index(entry_keys(self.entries@), key@) == Some(i as int) && i
                    < self.entries@.len(),
                None => first_index(entry_keys(self.entries@), key@).is_none(),
            },
    {
        let mut i: usize = 0;
        while i < self.entries.len()
            invariant
                i <= self.entries.len(),
                forall|j: int| 0 <= j < i ==> entry_keys(self.entries@)[j] != key@,
            decreases self.entries.len() - i,
        {
            if self.entries[i].0 == *key {
                proof {
                    assert(is_first(entry_keys(self.entries@), key@, i as int));
                    lemma_first_unique(entry_keys(self.entries@), key@, i as int);
                }
                return Some(i);
            }
            i += 1;
        }
        proof {
            lemma_first_index(entry_keys(self.entries@), key@);
        }
        None
    }

    /// Puts `content` under `key`, in place of what the key held.
    pub fn insert(&mut self, key: String, content: String)
        requires
            old(self).wf(),
        ensures
            final(self).wf(),
            final(self)@ == old(self)@.insert(key@, content@),
    {
        let ghost before = self.entries@;
        let ghost keys = entry_keys(before);
        match self.find(&key) {
            Some(i) => {
                self.entries[i].1 = content;
                proof {
                    assert(entry_keys(self.entries@) =~= keys);
                    assert forall|k: Seq<char>|
                        entries_map(before).insert(key@, content@).contains_key(k) implies #[trigger] entries_map(
                        self.entries@,
                    ).contains_key(k) && entries_map(self.entries@)[k] == entries_map(
                        before,
                    ).insert(key@, content@)[k] by {
                        lemma_first_index(keys, k);
                    }
                    assert(self@ =~= entries_map(before).insert(key@, content@));
                }
            },
            None => {
                proof {
                    lemma_first_index(keys, key@);
                }
                self.entries.push((key, content));
                proof {
                    let after = entry_keys(self.entries@);
                    assert(after =~= keys.push(key@));
                    assert(is_first(after, key@, keys.len() as int));
                    lemma_first_unique(after, key@, keys.len() as int);
                    assert forall|k: Seq<char>| k != key@ implies first_index(after, k)
                        == first_index(keys, k) by {
                        lemma_first_index(keys, k);
                        lemma_first_index(after, k);
                        match first_index(keys, k) {
                            Some(i) => {
                                assert(is_first(after, k, i));
                                lemma_first_unique(after, k, i);
                            },
                            None => {
                                if first_index(after, k).is_some() {
                                    let j = first_index(after, k).unwrap();
                                    assert(after[j] == k);
                                    assert(keys[j] == k);
                                }
                            },
                        }
                    }
                    assert(self@ =~= entries_map(before).insert(key@, content@));
                }
            },
        }
    }

    /// What `key` holds.
    pub fn get(&self, key: &str) -> (r: Option<&String>)
        ensures
            match r {
                Some(content) => self@.contains_key(key@) && self@[key@] == content@,
                None => !self@.contains_key(key@),
            },
    {
        let wanted = key.to_owned();
        match self.find(&wanted) {
            Some(i) => Some(&self.entries[i].1),
            None => None,
        }
    }

    /// How many keys hold content.
    pub fn len(&self) -> (n: usize)
        requires
            self.wf(),
        ensures
            n == self@.dom().len(),
            self@.dom().finite(),
    {
        proof {
            lemma_entries_count(self.entries@, self.entries@.len() as int);
            assert(self.entries@.take(self.entries@.len() as int) =~= self.entries@);
        }
        self.entries.len()
    }
}

/// Entries with distinct keys hold as many keys as there are entries.
proof fn lemma_entries_count(entries: Seq<(String, String)>, n: int)
    requires
        distinct(entry_keys(entries)),
        0 <= n <= entries.len(),
    ensures
        entries_map(entries.take(n)).dom().finite(),
        entries_map(entries.take(n)).dom().len() == n,
    decreases n,
{
    let here = entries.take(n);
    let keys = entry_keys(here);
    if n == 0 {
        assert forall|k: Seq<char>| !entries_map(here).dom().contains(k) by {
            lemma_first_index(keys, k);
        }
        assert(entries_map(here).dom() =~= Set::<Seq<char>>::empty());
    } else {
        lemma_entries_count(entries, n - 1);
        let before = entries.take(n - 1);
        let key = entries[n - 1].0@;
        assert(entry_keys(entries)[n - 1] == key);
        assert forall|k: Seq<char>|
            entries_map(here).dom().contains(k) == entries_map(before).dom().insert(key).contains(
                k,
            ) by {
            lemma_first_index(keys, k);
            lemma_first_index(entry_keys(before), k);
            if entries_map(here).dom().contains(k) && k != key {
                let i = first_index(keys, k).unwrap();
                assert(keys[i] == k);
                assert(entry_keys(before)[i] == k);
            }
            if entries_map(before).dom().contains(k) {
                let i = first_index(entry_keys(before), k).unwrap();
                assert(keys[i] == k);
            }
            if k == key {
                assert(keys[n - 1] == k);
            }
        }
        assert(entries_map(here).dom() =~= entries_map(before).dom().insert(key));
        assert(!entries_map(before).dom().contains(key)) by {
            lemma_first_index(entry_keys(before), key);
            if first_index(entry_keys(before), key).is_some() {
                let i = first_index(entry_keys(before), key).unwrap();
                assert(entry_keys(entries)[i] == key);
            }
        }
    }
}

} // verus!
