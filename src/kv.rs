//! Ordered byte-keyed store: entries kept sorted by key, unique keys.
use vstd::prelude::*;
use crate::order::{
    bytes_eq, has_prefix, key_lt, lemma_lex_irreflexive, lemma_lex_total,
    lemma_lex_transitive, lemma_prefix_run, lex_lt, starts_with,
};

verus! {

/// The abstract contents of a store: (key, value) pairs.
pub type KvSeq = Seq<(Seq<u8>, Seq<u8>)>;

/// Keys strictly increase in byte-lexicographic order.
pub open spec fn sorted_keys(s: KvSeq) -> bool {
    forall|i: int, j: int| 0 <= i < j < s.len() ==> lex_lt(#[trigger] s[i].0, #[trigger] s[j].0)
}

/// The map from key to value that a sorted sequence of entries stands for.
pub open spec fn as_map(s: KvSeq) -> Map<Seq<u8>, Seq<u8>> {
    Map::new(
        |k: Seq<u8>| exists|i: int| 0 <= i < s.len() && s[i].0 == k,
        |k: Seq<u8>| s[choose|i: int| 0 <= i < s.len() && s[i].0 == k].1,
    )
}

/// The entry predicate "the key begins with `p`".
pub open spec fn prefix_pred(p: Seq<u8>) -> spec_fn((Seq<u8>, Seq<u8>)) -> bool {
    |e: (Seq<u8>, Seq<u8>)| has_prefix(e.0, p)
}

/// Views a vector of byte pairs as a sequence of byte-sequence pairs.
pub open spec fn pairs_view(v: Seq<(Vec<u8>, Vec<u8>)>) -> KvSeq {
    v.map_values(|e: (Vec<u8>, Vec<u8>)| (e.0@, e.1@))
}

pub proof fn lemma_sorted_distinct(s: KvSeq, i: int, j: int)
    requires
        sorted_keys(s),
        0 <= i < s.len(),
        0 <= j < s.len(),
        s[i].0 == s[j].0,
    ensures
        i == j,
{
    lemma_lex_irreflexive(s[i].0, 0);
    if i < j {
        assert(lex_lt(s[i].0, s[j].0));
    } else if j < i {
        assert(lex_lt(s[j].0, s[i].0));
    }
}

pub proof fn lemma_as_map_index(s: KvSeq, i: int)
    requires
        sorted_keys(s),
        0 <= i < s.len(),
    ensures
        as_map(s).contains_key(s[i].0),
        as_map(s)[s[i].0] == s[i].1,
{
    assert(0 <= i < s.len() && s[i].0 == s[i].0);
    let j = choose|j: int| 0 <= j < s.len() && s[j].0 == s[i].0;
    lemma_sorted_distinct(s, i, j);
}

/// A sorted sequence stands for `m` when it lists exactly `m`'s entries.
pub proof fn lemma_as_map_char(s: KvSeq, m: Map<Seq<u8>, Seq<u8>>)
    requires
        sorted_keys(s),
        forall|i: int| 0 <= i < s.len() ==> m.contains_key(#[trigger] s[i].0) && m[s[i].0] == s[i].1,
        forall|k: Seq<u8>| #[trigger] m.contains_key(k) ==> exists|i: int| 0 <= i < s.len() && s[i].0 == k,
    ensures
        as_map(s) == m,
{
    assert forall|k: Seq<u8>| #[trigger] as_map(s).contains_key(k) implies m.contains_key(k) && as_map(s)[k] == m[k] by {
        let i = choose|i: int| 0 <= i < s.len() && s[i].0 == k;
        lemma_as_map_index(s, i);
    }
    assert(as_map(s) =~= m);
}

/// An ordered byte-keyed store with prefix scans.
pub struct KvStore {
    entries: Vec<(Vec<u8>, Vec<u8>)>,
}

impl View for KvStore {
    type V = KvSeq;

    closed spec fn view(&self) -> KvSeq {
        pairs_view(self.entries@)
    }
}

impl KvStore {
    /// Keys are unique and kept in byte-lexicographic order.
    pub open spec fn wf(&self) -> bool {
        sorted_keys(self@)
    }

    /// The store's contents as a map from key to value.
    pub open spec fn map(&self) -> Map<Seq<u8>, Seq<u8>> {
        as_map(self@)
    }

    pub fn new() -> (r: KvStore)
        ensures
            r.wf(),
            r@.len() == 0,
            r.map() == Map::<Seq<u8>, Seq<u8>>::empty(),
    {
        let r = KvStore { entries: Vec::new() };
        proof {
            assert(r@ =~= Seq::<(Seq<u8>, Seq<u8>)>::empty());
            assert(as_map(r@) =~= Map::<Seq<u8>, Seq<u8>>::empty());
        }
        r
    }

    /// Index of the entry with key `k`, if any.
    fn find(&self, k: &[u8]) -> (r: Option<usize>)
        requires
            self.wf(),
        ensures
            r is Some <==> self.map().contains_key(k@),
            r is Some ==> r->Some_0 < self@.len() && self@[r->Some_0 as int].0 == k@,
    {
        let mut i: usize = 0;
        while i < self.entries.len()
            invariant
                self.wf(),
                i <= self.entries.len(),
                self@.len() == self.entries@.len(),
                forall|j: int| 0 <= j < i ==> self@[j].0 != k@,
            decreases self.entries.len() - i,
        {
            if bytes_eq(self.entries[i].0.as_slice(), k) {
                proof {
                    lemma_as_map_index(self@, i as int);
                }
                return Some(i);
            }
            i += 1;
        }
        None
    }

    /// The value stored under `k`.
    pub fn get(&self, k: &[u8]) -> (r: Option<Vec<u8>>)
        requires
            self.wf(),
        ensures
            r is Some <==> self.map().contains_key(k@),
            r is Some ==> r->Some_0@ == self.map()[k@],
    {
        match self.find(k) {
            Some(i) => {
                let v = self.entries[i].1.clone();
                proof {
                    lemma_as_map_index(self@, i as int);
                    assert(v@ =~= self@[i as int].1);
                }
                Some(v)
            },
            None => None,
        }
    }

    /// Stores `v` under `k`, replacing any earlier value.
    pub fn put(&mut self, k: Vec<u8>, v: Vec<u8>)
        requires
            old(self).wf(),
        ensures
            final(self).wf(),
            final(self).map() == old(self).map().insert(k@, v@),
    {
        let ghost s0 = self@;
        let ghost m0 = self.map();
        let mut i: usize = 0;
        loop
            invariant
                self@ == s0,
                sorted_keys(s0),
                i <= self.entries.len(),
                s0.len() == self.entries@.len(),
                forall|j: int| 0 <= j < i ==> lex_lt(#[trigger] s0[j].0, k@),
            ensures
                self@ == s0,
                i <= self.entries.len(),
                forall|j: int| 0 <= j < i ==> lex_lt(#[trigger] s0[j].0, k@),
                i < self.entries.len() ==> !lex_lt(s0[i as int].0, k@),
            decreases self.entries.len() - i,
        {
            if i >= self.entries.len() || !key_lt(self.entries[i].0.as_slice(), k.as_slice()) {
                break;
            }
            i += 1;
        }
        proof {
            assert forall|j: int| 0 <= j < s0.len() implies m0.contains_key(#[trigger] s0[j].0)
                && m0[s0[j].0] == s0[j].1 by {
                lemma_as_map_index(s0, j);
            }
        }
        if i < self.entries.len() && bytes_eq(self.entries[i].0.as_slice(), k.as_slice()) {
            self.entries.set(i, (k, v));
            proof {
                let s1 = self@;
                assert(s1 =~= s0.update(i as int, (k@, v@)));
                assert(s0[i as int].0 == k@);
                assert forall|j: int| 0 <= j < s1.len() implies #[trigger] s1[j].0 == s0[j].0 by {}
                let m1 = m0.insert(k@, v@);
                assert forall|j: int| 0 <= j < s1.len() implies m1.contains_key(#[trigger] s1[j].0)
                    && m1[s1[j].0] == s1[j].1 by {
                    if j != i && s0[j].0 == k@ {
                        lemma_sorted_distinct(s0, i as int, j);
                    }
                }
                assert forall|x: Seq<u8>| #[trigger] m1.contains_key(x) implies exists|j: int|
                    0 <= j < s1.len() && s1[j].0 == x by {
                    if x == k@ {
                        assert(s1[i as int].0 == x);
                    } else {
                        let j = choose|j: int| 0 <= j < s0.len() && s0[j].0 == x;
                        assert(s1[j].0 == x);
                    }
                }
                lemma_as_map_char(s1, m1);
            }
        } else {
            self.entries.insert(i, (k, v));
            proof {
                let s1 = self@;
                assert(s1 =~= s0.insert(i as int, (k@, v@)));
                // every key at or after i is above k
                assert forall|j: int| i <= j < s0.len() implies lex_lt(k@, #[trigger] s0[j].0) by {
                    assert(!lex_lt(s0[i as int].0, k@));
                    assert(s0[i as int].0 != k@);
                    assert(s0[i as int].0.subrange(0, 0) =~= k@.subrange(0, 0));
                    lemma_lex_total(s0[i as int].0, k@, 0);
                    if j > i {
                        lemma_lex_transitive(k@, s0[i as int].0, s0[j].0, 0);
                    }
                }
                assert forall|a: int, b: int| 0 <= a < b < s1.len() implies lex_lt(
                    #[trigger] s1[a].0,
                    #[trigger] s1[b].0,
                ) by {
                    if b < i {
                    } else if b == i {
                    } else if a < i {
                        lemma_lex_transitive(s0[a].0, k@, s0[b - 1].0, 0);
                    } else if a == i {
                    } else {
                    }
                }
                let m1 = m0.insert(k@, v@);
                assert forall|j: int| 0 <= j < s1.len() implies m1.contains_key(#[trigger] s1[j].0)
                    && m1[s1[j].0] == s1[j].1 by {
                    if j < i {
                        lemma_lex_irreflexive(k@, 0);
                    } else if j > i {
                        lemma_lex_irreflexive(k@, 0);
                    }
                }
                assert forall|x: Seq<u8>| #[trigger] m1.contains_key(x) implies exists|j: int|
                    0 <= j < s1.len() && s1[j].0 == x by {
                    if x == k@ {
                        assert(s1[i as int].0 == x);
                    } else {
                        let j = choose|j: int| 0 <= j < s0.len() && s0[j].0 == x;
                        if j < i {
                            assert(s1[j].0 == x);
                        } else {
                            assert(s1[j + 1].0 == x);
                        }
                    }
                }
                lemma_as_map_char(s1, m1);
            }
        }
    }

    /// Removes the entry under `k`; removing an absent key changes nothing.
    pub fn delete(&mut self, k: &[u8])
        requires
            old(self).wf(),
        ensures
            final(self).wf(),
            final(self).map() == old(self).map().remove(k@),
    {
        let ghost s0 = self@;
        let ghost m0 = self.map();
        proof {
            assert forall|j: int| 0 <= j < s0.len() implies m0.contains_key(#[trigger] s0[j].0)
                && m0[s0[j].0] == s0[j].1 by {
                lemma_as_map_index(s0, j);
            }
        }
        match self.find(k) {
            Some(i) => {
                self.entries.remove(i);
                proof {
                    let s1 = self@;
                    assert(s1 =~= s0.remove(i as int));
                    assert forall|a: int, b: int| 0 <= a < b < s1.len() implies lex_lt(
                        #[trigger] s1[a].0,
                        #[trigger] s1[b].0,
                    ) by {
                        let a0 = if a < i { a } else { a + 1 };
                        let b0 = if b < i { b } else { b + 1 };
                        assert(s1[a] == s0[a0]);
                        assert(s1[b] == s0[b0]);
                    }
                    let m1 = m0.remove(k@);
                    assert forall|j: int| 0 <= j < s1.len() implies m1.contains_key(#[trigger] s1[j].0)
                        && m1[s1[j].0] == s1[j].1 by {
                        let j0 = if j < i { j } else { j + 1 };
                        assert(s1[j] == s0[j0]);
                        if s0[j0].0 == k@ {
                            lemma_sorted_distinct(s0, i as int, j0);
                        }
                    }
                    assert forall|x: Seq<u8>| #[trigger] m1.contains_key(x) implies exists|j: int|
                        0 <= j < s1.len() && s1[j].0 == x by {
                        let j = choose|j: int| 0 <= j < s0.len() && s0[j].0 == x;
                        if j < i {
                            assert(s1[j].0 == x);
                        } else {
                            assert(s1[j - 1].0 == x);
                        }
                    }
                    lemma_as_map_char(s1, m1);
                }
            },
            None => {
                proof {
                    assert(m0.remove(k@) =~= m0);
                }
            },
        }
    }

    /// Every entry whose key begins with `p`, in key order. The scan stops at
    /// the first key past the run of keys with that prefix.
    pub fn scan_prefix(&self, p: &[u8]) -> (r: Vec<(Vec<u8>, Vec<u8>)>)
        requires
            self.wf(),
        ensures
            pairs_view(r@) == self@.filter(prefix_pred(p@)),
    {
        let ghost s = self@;
                let mut r: Vec<(Vec<u8>, Vec<u8>)> = Vec::new();
        let mut started: bool = false;
        let mut i: usize = 0;
        while i < self.entries.len()
            invariant
                s == self@,
                sorted_keys(s),
                i <= self.entries.len(),
                s.len() == self.entries@.len(),
                pairs_view(r@) == s.take(i as int).filter(prefix_pred(p@)),
                started ==> exists|j: int| 0 <= j < i && has_prefix(#[trigger] s[j].0, p@),
            decreases self.entries.len() - i,
        {
            proof {
                reveal(Seq::filter);
            }
            assert(s.take(i as int + 1).drop_last() =~= s.take(i as int));
            assert(s.take(i as int + 1).last() == s[i as int]);
            assert(prefix_pred(p@)(s[i as int]) == has_prefix(s[i as int].0, p@));
            if starts_with(self.entries[i].0.as_slice(), p) {
                let k = self.entries[i].0.clone();
                let v = self.entries[i].1.clone();
                proof {
                    assert(k@ =~= s[i as int].0);
                    assert(v@ =~= s[i as int].1);
                }
                let ghost r0 = r@;
                r.push((k, v));
                proof {
                    assert(pairs_view(r@) =~= pairs_view(r0).push((k@, v@)));
                    assert(pairs_view(r@) =~= s.take(i as int + 1).filter(prefix_pred(p@)));
                }
                started = true;
            } else {
                if started {
                    proof {
                        let a = choose|j: int| 0 <= j < i && has_prefix(#[trigger] s[j].0, p@);
                        assert forall|j: int| i < j < s.len() implies !has_prefix(
                            #[trigger] s[j].0,
                            p@,
                        ) by {
                            if has_prefix(s[j].0, p@) {
                                lemma_prefix_run(s[a].0, s[i as int].0, s[j].0, p@);
                            }
                        }
                        let rest = s.skip(i as int);
                        assert(s =~= s.take(i as int) + rest);
                        assert(rest.all(|e: (Seq<u8>, Seq<u8>)| !prefix_pred(p@)(e))) by {
                            assert forall|j: int| 0 <= j < rest.len() implies !prefix_pred(p@)(
                                #[trigger] rest[j],
                            ) by {
                                assert(rest[j] == s[i + j]);
                            }
                        }
                        rest.lemma_all_neg_filter_empty(prefix_pred(p@));
                        Seq::filter_distributes_over_add(s.take(i as int), rest, prefix_pred(p@));
                        assert(s.filter(prefix_pred(p@)) =~= s.take(i as int).filter(prefix_pred(p@)));
                    }
                    return r;
                }
                proof {
                    assert(s.take(i as int + 1).filter(prefix_pred(p@)) =~= s.take(i as int).filter(prefix_pred(p@)));
                }
            }
            i += 1;
        }
        proof {
            assert(s.take(i as int) =~= s);
        }
        r
    }
}

} // verus!
