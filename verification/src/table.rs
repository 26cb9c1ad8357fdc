//! A small string-keyed table of records, viewed as a `Map` from the key's
//! characters to the record's view. Keys are kept unique; inserting an
//! existing key overwrites its record.

use vstd::prelude::*;

use crate::record::Info;
use crate::record::InfoView;
use crate::text::eq_lowered;
use crate::text::lowered;

verus! {

/// The views of a sequence of table entries.
pub(crate) open spec fn entry_views(s: Seq<(String, Info)>) -> Seq<(Seq<char>, InfoView)> {
    Seq::new(s.len(), |i: int| (s[i].0@, s[i].1@))
}

/// The map that a sequence of entries denotes; a later entry overrides an
/// earlier one with the same key.
pub(crate) open spec fn assoc_map(s: Seq<(Seq<char>, InfoView)>) -> Map<Seq<char>, InfoView>
    decreases s.len(),
{
    if s.len() == 0 {
        Map::empty()
    } else {
        assoc_map(s.drop_last()).insert(s.last().0, s.last().1)
    }
}

/// No two entries share a key.
pub(crate) open spec fn unique_keys(s: Seq<(Seq<char>, InfoView)>) -> bool {
    forall|i: int, j: int| 0 <= i < j < s.len() ==> s[i].0 != s[j].0
}

proof fn lemma_assoc_found(s: Seq<(Seq<char>, InfoView)>, i: int)
    requires
        unique_keys(s),
        0 <= i < s.len(),
    ensures
        assoc_map(s).contains_key(s[i].0),
        assoc_map(s)[s[i].0] == s[i].1,
    decreases s.len(),
{
    if i < s.len() - 1 {
        let s2 = s.drop_last();
        assert(unique_keys(s2)) by {
            assert forall|a: int, b: int| 0 <= a < b < s2.len() implies s2[a].0 != s2[b].0 by {
                assert(s2[a] == s[a] && s2[b] == s[b]);
            }
        }
        lemma_assoc_found(s2, i);
        assert(s2[i] == s[i]);
        assert(s.last().0 != s[i].0);
    }
}

proof fn lemma_assoc_absent(s: Seq<(Seq<char>, InfoView)>, k: Seq<char>)
    requires
        forall|j: int| 0 <= j < s.len() ==> s[j].0 != k,
    ensures
        !assoc_map(s).contains_key(k),
    decreases s.len(),
{
    if s.len() > 0 {
        let s2 = s.drop_last();
        assert(forall|j: int| 0 <= j < s2.len() ==> s2[j] == s[j]);
        lemma_assoc_absent(s2, k);
    }
}

proof fn lemma_assoc_update(s: Seq<(Seq<char>, InfoView)>, i: int, e: (Seq<char>, InfoView))
    requires
        unique_keys(s),
        0 <= i < s.len(),
        s[i].0 == e.0,
    ensures
        assoc_map(s.update(i, e)) == assoc_map(s).insert(e.0, e.1),
    decreases s.len(),
{
    let t = s.update(i, e);
    if i == s.len() - 1 {
        assert(t.drop_last() =~= s.drop_last());
        assert(t.last() == e);
        assert(assoc_map(s.drop_last()).insert(s.last().0, s.last().1).insert(e.0, e.1)
            =~= assoc_map(s.drop_last()).insert(e.0, e.1));
    } else {
        let s2 = s.drop_last();
        assert(unique_keys(s2)) by {
            assert forall|a: int, b: int| 0 <= a < b < s2.len() implies s2[a].0 != s2[b].0 by {
                assert(s2[a] == s[a] && s2[b] == s[b]);
            }
        }
        assert(s2[i] == s[i]);
        lemma_assoc_update(s2, i, e);
        assert(t.drop_last() =~= s2.update(i, e));
        assert(t.last() == s.last());
        assert(s.last().0 != e.0);
        assert(assoc_map(s2).insert(e.0, e.1).insert(s.last().0, s.last().1) =~= assoc_map(
            s2,
        ).insert(s.last().0, s.last().1).insert(e.0, e.1));
    }
}

/// A table of records, keyed by strings: the backing store of one lookup
/// index of the database.
pub(crate) struct Table {
    entries: Vec<(String, Info)>,
}

impl View for Table {
    type V = Map<Seq<char>, InfoView>;

    closed spec fn view(&self) -> Map<Seq<char>, InfoView> {
        assoc_map(entry_views(self.entries@))
    }
}

impl Table {
    /// The keys of the entries are pairwise distinct.
    pub(crate) closed spec fn wf(&self) -> bool {
        unique_keys(entry_views(self.entries@))
    }

    pub(crate) fn new() -> (r: Table)
        ensures
            r@ == Map::<Seq<char>, InfoView>::empty(),
            r.wf(),
    {
        let r = Table { entries: Vec::new() };
        proof {
            assert(entry_views(r.entries@) =~= Seq::empty());
        }
        r
    }

    /// The index of the entry holding `key`, if any.
    fn find(&self, key: &String) -> (r: Option<usize>)
        ensures
            match r {
                Some(i) => i < self.entries@.len() && entry_views(self.entries@)[i as int].0
                    == key@,
                None => forall|j: int|
                    0 <= j < self.entries@.len() ==> entry_views(self.entries@)[j].0 != key@,
            },
    {
        let n = self.entries.len();
        let mut i: usize = 0;
        while i < n
            invariant
                n == self.entries@.len(),
                i <= n,
                forall|j: int| 0 <= j < i ==> entry_views(self.entries@)[j].0 != key@,
            decreases n - i,
        {
            let e = &self.entries[i];
            if e.0 == *key {
                return Some(i);
            }
            i += 1;
        }
        None
    }

    /// Binds `key` to `info`, replacing any record the key held before.
    pub(crate) fn insert(&mut self, key: String, info: Info)
        requires
            old(self).wf(),
        ensures
            final(self).wf(),
            final(self)@ == old(self)@.insert(key@, info@),
    {
        let ghost pre = entry_views(self.entries@);
        let ghost kv = (key@, info@);
        match self.find(&key) {
            Some(i) => {
                self.entries[i] = (key, info);
                proof {
                    assert(entry_views(self.entries@) =~= pre.update(i as int, kv));
                    lemma_assoc_update(pre, i as int, kv);
                    assert(unique_keys(entry_views(self.entries@))) by {
                        let post = entry_views(self.entries@);
                        assert forall|a: int, b: int| 0 <= a < b < post.len() implies post[a].0
                            != post[b].0 by {
                            assert(post[a].0 == pre[a].0 && post[b].0 == pre[b].0);
                        }
                    }
                }
            },
            None => {
                self.entries.push((key, info));
                proof {
                    assert(entry_views(self.entries@).drop_last() =~= pre);
                    assert(unique_keys(entry_views(self.entries@))) by {
                        let post = entry_views(self.entries@);
                        assert forall|a: int, b: int| 0 <= a < b < post.len() implies post[a].0
                            != post[b].0 by {
                            if b < post.len() - 1 {
                                assert(post[a] == pre[a] && post[b] == pre[b]);
                            } else {
                                assert(post[a] == pre[a]);
                            }
                        }
                    }
                }
            },
        }
    }

    /// The record bound to `key`, by exact match.
    pub(crate) fn get<'a>(&'a self, key: &String) -> (r: Option<&'a Info>)
        requires
            self.wf(),
        ensures
            match r {
                Some(info) => self@.contains_key(key@) && self@[key@] == info@,
                None => !self@.contains_key(key@),
            },
    {
        match self.find(key) {
            Some(i) => {
                proof {
                    lemma_assoc_found(entry_views(self.entries@), i as int);
                }
                Some(&self.entries[i].1)
            },
            None => {
                proof {
                    lemma_assoc_absent(entry_views(self.entries@), key@);
                }
                None
            },
        }
    }

    /// The record bound to the ASCII-lowercased form of `key`.
    pub(crate) fn get_lowered<'a>(&'a self, key: &str) -> (r: Option<&'a Info>)
        requires
            self.wf(),
        ensures
            match r {
                Some(info) => self@.contains_key(lowered(key@)) && self@[lowered(key@)] == info@,
                None => !self@.contains_key(lowered(key@)),
            },
    {
        let n = self.entries.len();
        let mut i: usize = 0;
        while i < n
            invariant
                self.wf(),
                n == self.entries@.len(),
                i <= n,
                forall|j: int| 0 <= j < i ==> entry_views(self.entries@)[j].0 != lowered(key@),
            decreases n - i,
        {
            let e = &self.entries[i];
            if eq_lowered(e.0.as_str(), key) {
                proof {
                    lemma_assoc_found(entry_views(self.entries@), i as int);
                }
                return Some(&self.entries[i].1);
            }
            i += 1;
        }
        proof {
            lemma_assoc_absent(entry_views(self.entries@), lowered(key@));
        }
        None
    }
}

} // verus!
