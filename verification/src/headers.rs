//! The header mapping: an association list that keeps insertion order,
//! holds each key once, and lets the last write for a key win.

use crate::text::str_eq;
use vstd::prelude::*;

verus! {

/// Value stored under key `k`, looking at the first (and, with distinct keys,
/// only) entry for it.
pub open spec fn assoc_find(hs: Seq<(Seq<char>, Seq<char>)>, k: Seq<char>) -> Option<Seq<char>>
    decreases hs.len(),
{
    if hs.len() == 0 {
        None
    } else if hs[0].0 == k {
        Some(hs[0].1)
    } else {
        assoc_find(hs.drop_first(), k)
    }
}

/// Store `v` under `k`: replace the value in place when the key is present,
/// append a new entry when it is not.
pub open spec fn assoc_insert(
    hs: Seq<(Seq<char>, Seq<char>)>,
    k: Seq<char>,
    v: Seq<char>,
) -> Seq<(Seq<char>, Seq<char>)>
    decreases hs.len(),
{
    if hs.len() == 0 {
        seq![(k, v)]
    } else if hs[0].0 == k {
        seq![(k, v)] + hs.drop_first()
    } else {
        seq![hs[0]] + assoc_insert(hs.drop_first(), k, v)
    }
}

/// Every key occurs at most once.
pub open spec fn assoc_distinct(hs: Seq<(Seq<char>, Seq<char>)>) -> bool {
    forall|p: int, q: int| 0 <= p < q < hs.len() ==> hs[p].0 != hs[q].0
}

/// `assoc_find` is `None` exactly when no entry carries the key.
pub proof fn lemma_assoc_find_absent(hs: Seq<(Seq<char>, Seq<char>)>, k: Seq<char>)
    ensures
        assoc_find(hs, k) is None <==> (forall|j: int| 0 <= j < hs.len() ==> hs[j].0 != k),
    decreases hs.len(),
{
    if hs.len() > 0 && hs[0].0 != k {
        lemma_assoc_find_absent(hs.drop_first(), k);
        if assoc_find(hs, k) is None {
            assert forall|j: int| 0 <= j < hs.len() implies hs[j].0 != k by {
                if j >= 1 {
                    assert(hs.drop_first()[j - 1] == hs[j]);
                }
            }
        } else {
            let j = choose|j: int| 0 <= j < hs.drop_first().len() && hs.drop_first()[j].0 == k;
            assert(hs[j + 1].0 == k);
        }
    }
}

/// `assoc_find` returns the value at the first position carrying the key.
pub proof fn lemma_assoc_find_at(hs: Seq<(Seq<char>, Seq<char>)>, k: Seq<char>, i: int)
    requires
        0 <= i < hs.len(),
        hs[i].0 == k,
        forall|j: int| 0 <= j < i ==> hs[j].0 != k,
    ensures
        assoc_find(hs, k) == Some(hs[i].1),
    decreases i,
{
    if i > 0 {
        assert(hs.drop_first()[i - 1] == hs[i]);
        assert forall|j: int| 0 <= j < i - 1 implies hs.drop_first()[j].0 != k by {
            assert(hs.drop_first()[j] == hs[j + 1]);
        }
        lemma_assoc_find_at(hs.drop_first(), k, i - 1);
    }
}

/// Inserting an absent key appends the new entry.
pub proof fn lemma_assoc_insert_absent(hs: Seq<(Seq<char>, Seq<char>)>, k: Seq<char>, v: Seq<char>)
    requires
        forall|j: int| 0 <= j < hs.len() ==> hs[j].0 != k,
    ensures
        assoc_insert(hs, k, v) == hs.push((k, v)),
    decreases hs.len(),
{
    if hs.len() == 0 {
        assert(assoc_insert(hs, k, v) =~= hs.push((k, v)));
    } else {
        assert forall|j: int| 0 <= j < hs.drop_first().len() implies hs.drop_first()[j].0 != k by {
            assert(hs.drop_first()[j] == hs[j + 1]);
        }
        lemma_assoc_insert_absent(hs.drop_first(), k, v);
        assert(seq![hs[0]] + hs.drop_first().push((k, v)) =~= hs.push((k, v)));
    }
}

/// Inserting a present key updates its entry in place.
pub proof fn lemma_assoc_insert_at(
    hs: Seq<(Seq<char>, Seq<char>)>,
    k: Seq<char>,
    v: Seq<char>,
    i: int,
)
    requires
        0 <= i < hs.len(),
        hs[i].0 == k,
        forall|j: int| 0 <= j < i ==> hs[j].0 != k,
    ensures
        assoc_insert(hs, k, v) == hs.update(i, (k, v)),
    decreases i,
{
    if i == 0 {
        assert(assoc_insert(hs, k, v) =~= hs.update(0, (k, v)));
    } else {
        assert(hs.drop_first()[i - 1] == hs[i]);
        assert forall|j: int| 0 <= j < i - 1 implies hs.drop_first()[j].0 != k by {
            assert(hs.drop_first()[j] == hs[j + 1]);
        }
        lemma_assoc_insert_at(hs.drop_first(), k, v, i - 1);
        assert(seq![hs[0]] + hs.drop_first().update(i - 1, (k, v)) =~= hs.update(i, (k, v)));
    }
}

/// Key/value store for header fields. Keys are unique and case-sensitive as
/// received; entries keep the order of their first insertion, so serialized
/// output is deterministic.
#[derive(Debug)]
pub struct Headers {
    pairs: Vec<(String, String)>,
}

impl View for Headers {
    type V = Seq<(Seq<char>, Seq<char>)>;

    closed spec fn view(&self) -> Seq<(Seq<char>, Seq<char>)> {
        self.pairs.deep_view()
    }
}

impl Headers {
    /// Keys are unique.
    pub open spec fn wf(&self) -> bool {
        assoc_distinct(self@)
    }

    pub fn new() -> (r: Headers)
        ensures
            r@ == Seq::<(Seq<char>, Seq<char>)>::empty(),
            r.wf(),
    {
        let r = Headers { pairs: Vec::new() };
        proof {
            assert(r@ =~= Seq::<(Seq<char>, Seq<char>)>::empty());
        }
        r
    }

    pub fn len(&self) -> (n: usize)
        ensures
            n == self@.len(),
    {
        self.pairs.len()
    }

    /// The entry at position `i`, for iteration in serialization order.
    pub fn pair_at<'a>(&'a self, i: usize) -> (r: &'a (String, String))
        requires
            i < self@.len(),
        ensures
            r.0@ == self@[i as int].0,
            r.1@ == self@[i as int].1,
    {
        &self.pairs[i]
    }

    /// Store `val` under `key`; a prior value for the same key is replaced.
    pub fn insert(&mut self, key: &str, val: &str)
        ensures
            final(self)@ == assoc_insert(old(self)@, key@, val@),
            old(self).wf() ==> final(self).wf(),
    {
        let ghost hs = self@;
        let mut i: usize = 0;
        while i < self.pairs.len()
            invariant
                hs == old(self)@,
                hs == self@,
                hs.len() == self.pairs@.len(),
                0 <= i <= hs.len(),
                forall|j: int| 0 <= j < i ==> hs[j].0 != key@,
            decreases hs.len() - i,
        {
            if str_eq(self.pairs[i].0.as_str(), key) {
                proof {
                    lemma_assoc_insert_at(hs, key@, val@, i as int);
                }
                self.pairs.remove(i);
                self.pairs.insert(i, (key.to_owned(), val.to_owned()));
                proof {
                    assert(self@ =~= hs.update(i as int, (key@, val@)));
                    if assoc_distinct(hs) {
                        assert forall|p: int, q: int|
                            0 <= p < q < self@.len() implies self@[p].0 != self@[q].0 by {
                            assert(hs[i as int].0 == key@);
                        }
                    }
                }
                return ;
            }
            i += 1;
        }
        proof {
            lemma_assoc_insert_absent(hs, key@, val@);
        }
        self.pairs.push((key.to_owned(), val.to_owned()));
        proof {
            assert(self@ =~= hs.push((key@, val@)));
            if assoc_distinct(hs) {
                assert forall|p: int, q: int|
                    0 <= p < q < self@.len() implies self@[p].0 != self@[q].0 by {
                    if q == self@.len() - 1 {
                        assert(hs[p].0 != key@);
                    }
                }
            }
        }
    }

    /// The value stored under `key`, if any.
    pub fn get<'a>(&'a self, key: &str) -> (r: Option<&'a String>)
        ensures
            match r {
                Some(v) => assoc_find(self@, key@) == Some(v@),
                None => assoc_find(self@, key@) is None,
            },
    {
        let mut i: usize = 0;
        while i < self.pairs.len()
            invariant
                self@.len() == self.pairs@.len(),
                0 <= i <= self@.len(),
                forall|j: int| 0 <= j < i ==> self@[j].0 != key@,
            decreases self@.len() - i,
        {
            if str_eq(self.pairs[i].0.as_str(), key) {
                proof {
                    lemma_assoc_find_at(self@, key@, i as int);
                }
                return Some(&self.pairs[i].1);
            }
            i += 1;
        }
        proof {
            lemma_assoc_find_absent(self@, key@);
        }
        None
    }

    /// Whether an entry carries `key`.
    pub fn contains_key(&self, key: &str) -> (r: bool)
        ensures
            r == (assoc_find(self@, key@) is Some),
    {
        match self.get(key) {
            Some(_) => true,
            None => false,
        }
    }
}

} // verus!
