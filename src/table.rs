//! A map keyed by strings, kept as a list of entries in insertion order.
use vstd::prelude::*;
use crate::text::str_eq;

verus! {

/// The value under `k` in `s`; the first entry with that key wins.
pub open spec fn lookup<V>(s: Seq<(String, V)>, k: Seq<char>) -> Option<V>
    decreases s.len(),
{
    if s.len() == 0 {
        None
    } else if s[0].0@ == k {
        Some(s[0].1)
    } else {
        lookup(s.drop_first(), k)
    }
}

/// No two entries of `s` share a key.
pub open spec fn keys_unique<V>(s: Seq<(String, V)>) -> bool {
    forall|i: int, j: int| 0 <= i < j < s.len() ==> s[i].0@ != s[j].0@
}

/// Whether some entry of `s` has key `k`.
pub open spec fn has_key<V>(s: Seq<(String, V)>, k: Seq<char>) -> bool {
    exists|i: int| 0 <= i < s.len() && #[trigger] s[i].0@ == k
}

pub proof fn lemma_lookup_none<V>(s: Seq<(String, V)>, k: Seq<char>)
    ensures
        lookup(s, k) is None <==> !has_key(s, k),
    decreases s.len(),
{
    if s.len() > 0 {
        lemma_lookup_none(s.drop_first(), k);
        if s[0].0@ != k {
            if has_key(s, k) {
                let i = choose|i: int| 0 <= i < s.len() && #[trigger] s[i].0@ == k;
                assert(s.drop_first()[i - 1].0@ == k);
            }
            if has_key(s.drop_first(), k) {
                let i = choose|i: int| 0 <= i < s.len() - 1 && #[trigger] s.drop_first()[i].0@ == k;
                assert(s[i + 1].0@ == k);
            }
        } else {
            assert(s[0].0@ == k);
        }
    }
}

pub proof fn lemma_lookup_at<V>(s: Seq<(String, V)>, k: Seq<char>, i: int)
    requires
        0 <= i < s.len(),
        s[i].0@ == k,
        forall|j: int| 0 <= j < i ==> s[j].0@ != k,
    ensures
        lookup(s, k) == Some(s[i].1),
    decreases s.len(),
{
    if i > 0 {
        assert forall|j: int| 0 <= j < i - 1 implies s.drop_first()[j].0@ != k by {
            assert(s[j + 1].0@ != k);
        }
        lemma_lookup_at(s.drop_first(), k, i - 1);
    }
}

pub proof fn lemma_lookup_unique<V>(s: Seq<(String, V)>, i: int)
    requires
        keys_unique(s),
        0 <= i < s.len(),
    ensures
        lookup(s, s[i].0@) == Some(s[i].1),
{
    lemma_lookup_at(s, s[i].0@, i);
}

/// Two entry lists with the same keys, and the same values wherever the key
/// is `q`, agree on `q`.
pub proof fn lemma_lookup_same_keys<V>(s1: Seq<(String, V)>, s2: Seq<(String, V)>, q: Seq<char>)
    requires
        s1.len() == s2.len(),
        forall|i: int| 0 <= i < s1.len() ==> #[trigger] s1[i].0@ == s2[i].0@,
        forall|i: int| 0 <= i < s1.len() && #[trigger] s1[i].0@ == q ==> s1[i].1 == s2[i].1,
    ensures
        lookup(s1, q) == lookup(s2, q),
    decreases s1.len(),
{
    if s1.len() > 0 {
        assert(s1[0].0@ == s2[0].0@);
        assert forall|i: int| 0 <= i < s1.len() - 1 implies #[trigger] s1.drop_first()[i].0@
            == s2.drop_first()[i].0@ by {
            assert(s1[i + 1].0@ == s2[i + 1].0@);
        }
        assert forall|i: int|
            0 <= i < s1.len() - 1 && #[trigger] s1.drop_first()[i].0@ == q implies s1.drop_first()[i].1
            == s2.drop_first()[i].1 by {
            assert(s1[i + 1].0@ == q);
        }
        lemma_lookup_same_keys(s1.drop_first(), s2.drop_first(), q);
    }
}

/// Appending an entry changes the lookup only of a key that was absent.
pub proof fn lemma_lookup_push<V>(s: Seq<(String, V)>, p: (String, V), q: Seq<char>)
    ensures
        lookup(s.push(p), q) == (if lookup(s, q) is Some {
            lookup(s, q)
        } else if p.0@ == q {
            Some(p.1)
        } else {
            None
        }),
    decreases s.len(),
{
    if s.len() > 0 {
        assert(s.push(p).drop_first() =~= s.drop_first().push(p));
        assert(s.push(p)[0] == s[0]);
        lemma_lookup_push(s.drop_first(), p, q);
        if s[0].0@ != q {
            assert(lookup(s.push(p), q) == lookup(s.push(p).drop_first(), q));
            assert(lookup(s, q) == lookup(s.drop_first(), q));
        }
    } else {
        assert(s.push(p).drop_first() =~= Seq::<(String, V)>::empty());
        assert(s.push(p)[0] == p);
    }
}

/// A string-keyed map. Keys are unique; entries keep their insertion order.
pub struct Table<V> {
    pub entries: Vec<(String, V)>,
}

impl<V> Table<V> {
    pub open spec fn wf(&self) -> bool {
        keys_unique(self.entries@)
    }

    /// The value under `k`.
    pub open spec fn at(&self, k: Seq<char>) -> Option<V> {
        lookup(self.entries@, k)
    }

    pub open spec fn contains(&self, k: Seq<char>) -> bool {
        has_key(self.entries@, k)
    }

    pub fn new() -> (r: Table<V>)
        ensures
            r.wf(),
            r.entries@.len() == 0,
    {
        Table { entries: Vec::new() }
    }

    pub fn len(&self) -> (r: usize)
        ensures
            r == self.entries@.len(),
    {
        self.entries.len()
    }

    /// The position of the entry with key `k`, if any.
    pub fn index_of(&self, k: &str) -> (r: Option<usize>)
        ensures
            match r {
                Some(i) => i < self.entries@.len() && self.entries@[i as int].0@ == k@ && (forall|
                    j: int,
                | 0 <= j < i ==> self.entries@[j].0@ != k@),
                None => !self.contains(k@),
            },
    {
        let mut i: usize = 0;
        while i < self.entries.len()
            invariant
                i <= self.entries@.len(),
                forall|j: int| 0 <= j < i ==> self.entries@[j].0@ != k@,
            decreases self.entries.len() - i,
        {
            if str_eq(self.entries[i].0.as_str(), k) {
                return Some(i);
            }
            i = i + 1;
        }
        None
    }

    /// The value under `k`.
    pub fn get(&self, k: &str) -> (r: Option<&V>)
        ensures
            match r {
                Some(v) => self.at(k@) == Some(*v),
                None => self.at(k@) is None,
            },
    {
        match self.index_of(k) {
            Some(i) => {
                proof {
                    lemma_lookup_at(self.entries@, k@, i as int);
                }
                Some(&self.entries[i].1)
            },
            None => {
                proof {
                    lemma_lookup_none(self.entries@, k@);
                }
                None
            },
        }
    }

    /// Sets the value under `k` to `v`: an existing entry is replaced in place,
    /// a new key is appended.
    pub fn insert(&mut self, k: String, v: V)
        requires
            old(self).wf(),
        ensures
            final(self).wf(),
            final(self).at(k@) == Some(v),
            forall|q: Seq<char>| q != k@ ==> #[trigger] final(self).at(q) == old(self).at(q),
            old(self).contains(k@) ==> final(self).entries@.len() == old(self).entries@.len(),
            !old(self).contains(k@) ==> final(self).entries@ == old(self).entries@.push((k, v)),
    {
        let ghost k_view = k@;
        match self.index_of(k.as_str()) {
            Some(i) => {
                let ghost before = self.entries@;
                self.entries.set(i, (k, v));
                proof {
                    let after = self.entries@;
                    assert(after == before.update(i as int, (k, v)));
                    assert(keys_unique(after)) by {
                        assert forall|a: int, b: int| 0 <= a < b < after.len() implies after[a].0@
                            != after[b].0@ by {
                            if a != i && b != i {
                                assert(before[a].0@ != before[b].0@);
                            } else if a == i {
                                assert(before[a].0@ != before[b].0@);
                            } else {
                                assert(before[a].0@ != before[b].0@);
                            }
                        }
                    }
                    lemma_lookup_unique(after, i as int);
                    assert forall|q: Seq<char>| q != k_view implies #[trigger] lookup(after, q)
                        == lookup(before, q) by {
                        lemma_lookup_none(before, q);
                        lemma_lookup_none(after, q);
                        if has_key(before, q) {
                            let j = choose|j: int| 0 <= j < before.len() && #[trigger] before[j].0@
                                == q;
                            assert(after[j].0@ == q);
                            lemma_lookup_unique(before, j);
                            lemma_lookup_unique(after, j);
                        } else if has_key(after, q) {
                            let j = choose|j: int| 0 <= j < after.len() && #[trigger] after[j].0@
                                == q;
                            assert(before[j].0@ == q);
                        }
                    }
                }
            },
            None => {
                let ghost before = self.entries@;
                self.entries.push((k, v));
                proof {
                    let after = self.entries@;
                    assert(keys_unique(after)) by {
                        assert forall|a: int, b: int| 0 <= a < b < after.len() implies after[a].0@
                            != after[b].0@ by {
                            if b == before.len() {
                                assert(before[a].0@ == after[a].0@);
                            } else {
                                assert(before[a].0@ != before[b].0@);
                            }
                        }
                    }
                    lemma_lookup_unique(after, before.len() as int);
                    assert forall|q: Seq<char>| q != k_view implies #[trigger] lookup(after, q)
                        == lookup(before, q) by {
                        lemma_lookup_none(before, q);
                        lemma_lookup_none(after, q);
                        if has_key(before, q) {
                            let j = choose|j: int| 0 <= j < before.len() && #[trigger] before[j].0@
                                == q;
                            assert(after[j].0@ == q);
                            lemma_lookup_unique(before, j);
                            lemma_lookup_unique(after, j);
                        } else if has_key(after, q) {
                            let j = choose|j: int| 0 <= j < after.len() && #[trigger] after[j].0@
                                == q;
                            assert(before[j].0@ == q);
                        }
                    }
                }
            },
        }
    }

    /// Removes the entry under `k`, if any, and returns its value.
    pub fn remove(&mut self, k: &str) -> (r: Option<V>)
        requires
            old(self).wf(),
        ensures
            final(self).wf(),
            r == old(self).at(k@),
            final(self).at(k@) is None,
            forall|q: Seq<char>| q != k@ ==> #[trigger] final(self).at(q) == old(self).at(q),
            !old(self).contains(k@) ==> final(self).entries@ == old(self).entries@,
            old(self).contains(k@) ==> exists|i: int|
                0 <= i < old(self).entries@.len() && #[trigger] old(self).entries@[i].0@ == k@
                    && final(self).entries@ == old(self).entries@.remove(i),
    {
        match self.index_of(k) {
            Some(i) => {
                let ghost before = self.entries@;
                proof {
                    lemma_lookup_unique(before, i as int);
                }
                let (_, v) = self.entries.remove(i);
                proof {
                    let after = self.entries@;
                    assert(after == before.remove(i as int));
                    assert(keys_unique(after)) by {
                        assert forall|a: int, b: int| 0 <= a < b < after.len() implies after[a].0@
                            != after[b].0@ by {
                            if a < i && b < i {
                                assert(before[a].0@ != before[b].0@);
                            } else if a < i {
                                assert(before[a].0@ != before[b + 1].0@);
                            } else {
                                assert(before[a + 1].0@ != before[b + 1].0@);
                            }
                        }
                    }
                    lemma_lookup_none(after, k@);
                    if has_key(after, k@) {
                        let j = choose|j: int| 0 <= j < after.len() && #[trigger] after[j].0@ == k@;
                        if j < i {
                            assert(before[j].0@ == k@);
                        } else {
                            assert(before[j + 1].0@ == k@);
                        }
                    }
                    assert forall|q: Seq<char>| q != k@ implies #[trigger] lookup(after, q)
                        == lookup(before, q) by {
                        lemma_lookup_none(before, q);
                        lemma_lookup_none(after, q);
                        if has_key(before, q) {
                            let j = choose|j: int| 0 <= j < before.len() && #[trigger] before[j].0@
                                == q;
                            lemma_lookup_unique(before, j);
                            if j < i {
                                assert(after[j].0@ == q);
                                lemma_lookup_unique(after, j);
                            } else {
                                assert(j != i);
                                assert(after[j - 1].0@ == q);
                                lemma_lookup_unique(after, j - 1);
                            }
                        } else if has_key(after, q) {
                            let j = choose|j: int| 0 <= j < after.len() && #[trigger] after[j].0@
                                == q;
                            if j < i {
                                assert(before[j].0@ == q);
                            } else {
                                assert(before[j + 1].0@ == q);
                            }
                        }
                    }
                    assert(before[i as int].0@ == k@);
                }
                Some(v)
            },
            None => {
                proof {
                    lemma_lookup_none(self.entries@, k@);
                }
                None
            },
        }
    }

    /// Removes the entries under each of `keys`.
    pub fn drop_keys(&mut self, keys: &Vec<String>)
        requires
            old(self).wf(),
        ensures
            final(self).wf(),
            forall|q: Seq<char>| #[trigger] final(self).at(q) == (if exists|j: int|
                0 <= j < keys@.len() && #[trigger] keys@[j]@ == q {
                None
            } else {
                old(self).at(q)
            }),
    {
        let ghost orig = *self;
        let mut j: usize = 0;
        while j < keys.len()
            invariant
                j <= keys@.len(),
                self.wf(),
                forall|q: Seq<char>| #[trigger] self.at(q) == (if exists|k: int|
                    0 <= k < j && #[trigger] keys@[k]@ == q {
                    None
                } else {
                    orig.at(q)
                }),
            decreases keys.len() - j,
        {
            let ghost mid = *self;
            self.remove(keys[j].as_str());
            proof {
                assert forall|q: Seq<char>| #[trigger] self.at(q) == (if exists|k: int|
                    0 <= k < j + 1 && #[trigger] keys@[k]@ == q {
                    None
                } else {
                    orig.at(q)
                }) by {
                    if q == keys@[j as int]@ {
                        assert(keys@[j as int]@ == q);
                    } else {
                        assert(self.at(q) == mid.at(q));
                        if exists|k: int| 0 <= k < j + 1 && #[trigger] keys@[k]@ == q {
                            let k = choose|k: int| 0 <= k < j + 1 && #[trigger] keys@[k]@ == q;
                            assert(k < j);
                        }
                    }
                }
            }
            j = j + 1;
        }
    }

    /// Keeps the entries whose flag in `keep` is set, and removes the others.
    pub fn retain_where(&mut self, keep: &Vec<bool>)
        requires
            old(self).wf(),
            keep@.len() == old(self).entries@.len(),
        ensures
            final(self).wf(),
            forall|i: int|
                0 <= i < keep@.len() ==> #[trigger] final(self).at(old(self).entries@[i].0@) == (if keep@[i] {
                    Some(old(self).entries@[i].1)
                } else {
                    None
                }),
            forall|q: Seq<char>| #[trigger] final(self).at(q) is Some ==> final(self).at(q) == old(
                self,
            ).at(q),
    {
        let ghost orig = *self;
        let mut dropped: Vec<String> = Vec::new();
        let ghost mut src: Seq<int> = Seq::empty();
        let ghost mut pos: Seq<int> = Seq::empty();
        let mut i: usize = 0;
        while i < self.entries.len()
            invariant
                *self == orig,
                keep@.len() == self.entries@.len(),
                i <= self.entries@.len(),
                src.len() == dropped@.len(),
                pos.len() == i,
                forall|j: int|
                    0 <= j < dropped@.len() ==> 0 <= #[trigger] src[j] < i && !keep@[src[j]]
                        && dropped@[j]@ == self.entries@[src[j]].0@,
                forall|k: int|
                    0 <= k < i && !keep@[k] ==> 0 <= #[trigger] pos[k] < dropped@.len()
                        && dropped@[pos[k]]@ == self.entries@[k].0@,
            decreases self.entries.len() - i,
        {
            if !keep[i] {
                let ghost before = dropped@;
                dropped.push(self.entries[i].0.clone());
                proof {
                    src = src.push(i as int);
                    pos = pos.push(before.len() as int);
                    assert forall|j: int| 0 <= j < dropped@.len() implies 0 <= #[trigger] src[j] < i
                        + 1 && !keep@[src[j]] && dropped@[j]@ == self.entries@[src[j]].0@ by {
                        if j < before.len() {
                            assert(dropped@[j] == before[j]);
                        }
                    }
                    assert forall|k: int| 0 <= k < i + 1 && !keep@[k] implies 0 <= #[trigger] pos[k]
                        < dropped@.len() && dropped@[pos[k]]@ == self.entries@[k].0@ by {
                        if k < i {
                            assert(dropped@[pos[k]] == before[pos[k]]);
                        }
                    }
                }
            } else {
                proof {
                    pos = pos.push(0);
                }
            }
            i = i + 1;
        }
        self.drop_keys(&dropped);
        proof {
            let es = orig.entries@;
            assert forall|k: int| 0 <= k < keep@.len() implies #[trigger] self.at(es[k].0@) == (if keep@[k] {
                Some(es[k].1)
            } else {
                None
            }) by {
                lemma_lookup_unique(es, k);
                if keep@[k] {
                    if exists|j: int| 0 <= j < dropped@.len() && #[trigger] dropped@[j]@ == es[k].0@ {
                        let j = choose|j: int|
                            0 <= j < dropped@.len() && #[trigger] dropped@[j]@ == es[k].0@;
                        let k2 = src[j];
                        assert(k2 != k);
                    }
                } else {
                    assert(dropped@[pos[k]]@ == es[k].0@);
                }
            }
        }
    }

    /// Removes every entry.
    pub fn clear(&mut self)
        ensures
            final(self).wf(),
            final(self).entries@.len() == 0,
    {
        self.entries.clear();
    }
}

} // verus!
