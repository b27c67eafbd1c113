//! Maps keyed by names, kept in increasing key order.

use vstd::prelude::*;
use crate::names::{views, sorted, lemma_sorted_no_duplicates, lemma_sorted_insert, clone_names, locate};

verus! {

/// A map from names to values whose keys are kept in increasing order.
#[derive(Debug)]
pub struct NameMap<V> {
    keys: Vec<String>,
    vals: Vec<V>,
}

impl<V> View for NameMap<V> {
    type V = Map<Seq<char>, V>;

    open spec fn view(&self) -> Map<Seq<char>, V> {
        Map::new(
            |k: Seq<char>| self.key_seq().contains(k),
            |k: Seq<char>| self.val_seq()[self.key_seq().index_of(k)],
        )
    }
}

/// In a duplicate-free sequence the index of an element is its position.
pub proof fn lemma_index_of_unique(s: Seq<Seq<char>>, i: int)
    requires
        s.no_duplicates(),
        0 <= i < s.len(),
    ensures
        s.index_of(s[i]) == i,
{
    assert(s.contains(s[i]));
}

impl<V> NameMap<V> {
    /// The keys in increasing order.
    pub closed spec fn key_seq(&self) -> Seq<Seq<char>> {
        views(self.keys@)
    }

    /// The values, in key order.
    pub closed spec fn val_seq(&self) -> Seq<V> {
        self.vals@
    }

    #[verifier::type_invariant]
    closed spec fn wf(&self) -> bool {
        &&& sorted(self.key_seq())
        &&& self.keys@.len() == self.vals@.len()
    }

    pub fn new() -> (r: Self)
        ensures
            r@ == Map::<Seq<char>, V>::empty(),
            r.key_seq() == Seq::<Seq<char>>::empty(),
    {
        let r = NameMap { keys: Vec::new(), vals: Vec::new() };
        assert(r.key_seq() =~= Seq::<Seq<char>>::empty());
        assert(r@ =~= Map::<Seq<char>, V>::empty());
        r
    }

    /// Number of entries.
    pub fn len(&self) -> (n: usize)
        ensures
            n == self@.len(),
            n == self.key_seq().len(),
            sorted(self.key_seq()),
            self@.dom() == self.key_seq().to_set(),
    {
        proof {
            use_type_invariant(self);
            lemma_sorted_no_duplicates(self.key_seq());
            self.key_seq().unique_seq_to_set();
            assert(self@.dom() =~= self.key_seq().to_set());
        }
        self.keys.len()
    }

    /// Whether `key` has an entry.
    pub fn contains_key(&self, key: &str) -> (b: bool)
        ensures
            b == self@.contains_key(key@),
    {
        proof { use_type_invariant(self); }
        locate(&self.keys, key).1
    }

    /// The position of `key` in increasing key order, if it has an entry.
    pub fn index_of(&self, key: &str) -> (r: Option<usize>)
        ensures
            r matches Some(i) ==> i < self.key_seq().len() && self.key_seq()[i as int] == key@,
            r is None <==> !self@.contains_key(key@),
    {
        proof { use_type_invariant(self); }
        let (p, found) = locate(&self.keys, key);
        if found {
            Some(p)
        } else {
            None
        }
    }

    /// The value stored under `key`, if any.
    pub fn get(&self, key: &str) -> (r: Option<&V>)
        ensures
            r == (if self@.contains_key(key@) { Some(&self@[key@]) } else { None::<&V> }),
    {
        proof {
            use_type_invariant(self);
            lemma_sorted_no_duplicates(self.key_seq());
        }
        let (p, found) = locate(&self.keys, key);
        if found {
            proof { lemma_index_of_unique(self.key_seq(), p as int); }
            Some(&self.vals[p])
        } else {
            None
        }
    }

    /// The `i`-th key in increasing order.
    pub fn key_at(&self, i: usize) -> (r: &String)
        requires
            i < self.key_seq().len(),
        ensures
            r@ == self.key_seq()[i as int],
    {
        &self.keys[i]
    }

    /// The value of the `i`-th key in increasing order.
    pub fn value_at(&self, i: usize) -> (r: &V)
        requires
            i < self.key_seq().len(),
        ensures
            *r == self@[self.key_seq()[i as int]],
            self@.contains_key(self.key_seq()[i as int]),
    {
        proof {
            use_type_invariant(self);
            lemma_sorted_no_duplicates(self.key_seq());
            lemma_index_of_unique(self.key_seq(), i as int);
        }
        &self.vals[i]
    }

    /// The keys, in increasing order.
    pub fn keys(&self) -> (r: Vec<String>)
        ensures
            views(r@) == self.key_seq(),
            sorted(views(r@)),
            views(r@).to_set() == self@.dom(),
    {
        proof { use_type_invariant(self); }
        let r = clone_names(&self.keys);
        assert(views(r@).to_set() =~= self@.dom());
        r
    }

    /// Every key occurs in the key sequence.
    pub proof fn lemma_dom(&self)
        ensures
            self@.dom() == self.key_seq().to_set(),
    {
        assert(self@.dom() =~= self.key_seq().to_set());
    }

    /// Inserts or replaces the entry for `key`.
    pub fn insert(&mut self, key: String, value: V)
        ensures
            final(self)@ == old(self)@.insert(key@, value),
    {
        proof {
            use_type_invariant(&*self);
            lemma_sorted_no_duplicates(self.key_seq());
        }
        let ghost ks = self.key_seq();
        let ghost vs = self.val_seq();
        let ghost k = key@;
        let (p, found) = locate(&self.keys, key.as_str());
        let mut taken = NameMap::new();
        std::mem::swap(&mut taken, self);
        proof { use_type_invariant(&taken); }
        let NameMap { keys: old_keys, vals: mut vals } = taken;
        if found {
            vals.set(p, value);
            *self = NameMap { keys: old_keys, vals };
            assert(self.key_seq() == ks);
            assert(self@ =~= old(self)@.insert(k, value)) by {
                assert forall|x: Seq<char>| #[trigger] self@.contains_key(x) implies self@[x]
                    == old(self)@.insert(k, value)[x] by {
                    let j = ks.index_of(x);
                    assert(ks.contains(x));
                    lemma_index_of_unique(ks, j);
                    if x == k {
                        lemma_index_of_unique(ks, p as int);
                    }
                }
            }
        } else {
            proof { lemma_sorted_insert(ks, p as int, k); }
            let mut keys = old_keys;
            keys.insert(p, key);
            vals.insert(p, value);
            assert(views(keys@) =~= ks.insert(p as int, k));
            *self = NameMap { keys, vals };
            let ghost nks = self.key_seq();
            proof { lemma_sorted_no_duplicates(nks); }
            assert(self@ =~= old(self)@.insert(k, value)) by {
                assert forall|x: Seq<char>| self@.contains_key(x) == old(self)@.insert(k, value).contains_key(x) by {
                    if ks.contains(x) {
                        let j = choose|j: int| 0 <= j < ks.len() && ks[j] == x;
                        if j < p {
                            assert(nks[j] == x);
                        } else {
                            assert(nks[j + 1] == x);
                        }
                    }
                    if x == k {
                        assert(nks[p as int] == x);
                    }
                    if nks.contains(x) {
                        let j = choose|j: int| 0 <= j < nks.len() && nks[j] == x;
                        if j < p {
                            assert(ks[j] == x);
                        } else if j > p {
                            assert(ks[j - 1] == x);
                        }
                    }
                }
                assert forall|x: Seq<char>| #[trigger] self@.contains_key(x) implies self@[x]
                    == old(self)@.insert(k, value)[x] by {
                    let j = nks.index_of(x);
                    assert(nks.contains(x));
                    lemma_index_of_unique(nks, j);
                    if j < p {
                        assert(ks[j] == x);
                        lemma_index_of_unique(ks, j);
                    } else if j > p {
                        assert(ks[j - 1] == x);
                        lemma_index_of_unique(ks, j - 1);
                    }
                }
            }
        }
    }
}

} // verus!
