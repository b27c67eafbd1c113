//! Effect-set algebra.
//!
//! Provides formal algebraic operations on effect sets:
//! - Union (∪): combining effects of multiple calls
//! - Subset (⊆): checking propagation requirements
//! - Surface expansion: named surfaces expand to atomic effects

use vstd::prelude::*;
use crate::names::{
    views, sorted, lemma_sorted_no_duplicates, lemma_sorted_push, lemma_sorted_insert,
    lemma_sorted_remove, clone_names, locate,
};
use crate::text::{str_lt, push_char, string_of};
use crate::name_map::NameMap;

verus! {

/// A set of effects with algebraic operations.
///
/// The effects are kept in strictly increasing name order, so two sets with
/// the same members have the same representation and iterate in the same
/// order.
#[derive(Debug, PartialEq, Eq)]
pub struct EffectSet {
    /// The explicit effects in this set.
    effects: Vec<String>,
}

/// `", "`-separated concatenation of names.
pub open spec fn join_names(s: Seq<Seq<char>>) -> Seq<char>
    decreases s.len(),
{
    if s.len() == 0 {
        Seq::empty()
    } else if s.len() == 1 {
        s[0]
    } else {
        join_names(s.drop_last()) + seq![',', ' '] + s.last()
    }
}

impl View for EffectSet {
    type V = Set<Seq<char>>;

    open spec fn view(&self) -> Set<Seq<char>> {
        self.elems().to_set()
    }
}

impl Clone for EffectSet {
    fn clone(&self) -> (r: Self)
        ensures
            r.elems() == self.elems(),
            r@ == self@,
    {
        proof { use_type_invariant(self); }
        EffectSet { effects: clone_names(&self.effects) }
    }
}

impl EffectSet {
    /// The members in increasing order.
    pub closed spec fn elems(&self) -> Seq<Seq<char>> {
        views(self.effects@)
    }

    #[verifier::type_invariant]
    closed spec fn wf(&self) -> bool {
        sorted(self.elems())
    }

    /// A strictly increasing member sequence lists each member once and is
    /// as long as the set is large.
    proof fn lemma_canonical(s: Seq<Seq<char>>)
        requires
            sorted(s),
        ensures
            s.no_duplicates(),
            s.to_set().finite(),
            s.to_set().len() == s.len(),
    {
        lemma_sorted_no_duplicates(s);
        s.unique_seq_to_set();
    }

    pub fn new() -> (r: Self)
        ensures
            r@ == Set::<Seq<char>>::empty(),
            r.elems() == Seq::<Seq<char>>::empty(),
    {
        let r = EffectSet { effects: Vec::new() };
        assert(r.elems() =~= Seq::<Seq<char>>::empty());
        assert(r@ =~= Set::<Seq<char>>::empty());
        r
    }

    pub fn from_names(names: Vec<String>) -> (r: Self)
        ensures
            r@ == views(names@).to_set(),
    {
        let mut r = EffectSet::new();
        let mut i: usize = 0;
        while i < names.len()
            invariant
                i <= names.len(),
                r@ =~= views(names@).take(i as int).to_set(),
            decreases names.len() - i,
        {
            let name = names[i].clone();
            r.insert(name);
            assert(views(names@).take(i + 1) =~= views(names@).take(i as int).push(names@[i as int]@));
            proof { views(names@).take(i as int).lemma_push_to_set_commute(names@[i as int]@); }
            i = i + 1;
        }
        assert(views(names@).take(names.len() as int) =~= views(names@));
        r
    }

    /// Check if this set is empty (pure function).
    pub fn is_empty(&self) -> (b: bool)
        ensures
            b == (self@ == Set::<Seq<char>>::empty()),
    {
        if self.effects.len() == 0 {
            assert(self@ =~= Set::<Seq<char>>::empty());
            true
        } else {
            assert(self@.contains(self.elems()[0]));
            false
        }
    }

    /// Check if this set contains a specific effect.
    pub fn contains(&self, effect: &str) -> (b: bool)
        ensures
            b == self@.contains(effect@),
    {
        proof { use_type_invariant(self); }
        locate(&self.effects, effect).1
    }

    /// Insert an effect.
    pub fn insert(&mut self, effect: String)
        ensures
            final(self)@ == old(self)@.insert(effect@),
    {
        proof { use_type_invariant(&*self); }
        let (p, found) = locate(&self.effects, effect.as_str());
        if !found {
            let ghost s = self.elems();
            let ghost x = effect@;
            proof { lemma_sorted_insert(s, p as int, x); }
            let mut v = clone_names(&self.effects);
            v.insert(p, effect);
            assert(views(v@) =~= s.insert(p as int, x));
            self.effects = v;
            assert(self@ =~= old(self)@.insert(x)) by {
                assert forall|y: Seq<char>| self@.contains(y) == old(self)@.insert(x).contains(y) by {
                    if old(self)@.contains(y) {
                        let k = choose|k: int| 0 <= k < s.len() && s[k] == y;
                        if k < p {
                            assert(self.elems()[k] == y);
                        } else {
                            assert(self.elems()[k + 1] == y);
                        }
                    }
                    if y == x {
                        assert(self.elems()[p as int] == y);
                    }
                    if self@.contains(y) {
                        let k = choose|k: int| 0 <= k < self.elems().len() && self.elems()[k] == y;
                        if k < p {
                            assert(s[k] == y);
                        } else if k > p {
                            assert(s[k - 1] == y);
                        }
                    }
                }
            }
        } else {
            assert(old(self)@.insert(effect@) =~= old(self)@);
        }
    }

    /// Remove an effect.
    pub(crate) fn remove(&mut self, effect: &str)
        ensures
            final(self)@ == old(self)@.remove(effect@),
    {
        proof { use_type_invariant(&*self); }
        let (p, found) = locate(&self.effects, effect);
        if found {
            let ghost s = self.elems();
            proof {
                lemma_sorted_remove(s, p as int);
                lemma_sorted_no_duplicates(s);
            }
            let mut v = clone_names(&self.effects);
            v.remove(p);
            assert(views(v@) =~= s.remove(p as int));
            self.effects = v;
            assert(self@ =~= old(self)@.remove(effect@)) by {
                assert forall|y: Seq<char>| self@.contains(y) == old(self)@.remove(effect@).contains(y) by {
                    if old(self)@.remove(effect@).contains(y) {
                        let k = choose|k: int| 0 <= k < s.len() && s[k] == y;
                        if k < p {
                            assert(self.elems()[k] == y);
                        } else {
                            assert(k != p);
                            assert(self.elems()[k - 1] == y);
                        }
                    }
                    if self@.contains(y) {
                        let k = choose|k: int| 0 <= k < self.elems().len() && self.elems()[k] == y;
                        if k < p {
                            assert(s[k] == y);
                        } else {
                            assert(s[k + 1] == y);
                        }
                    }
                }
            }
        } else {
            assert(old(self)@.remove(effect@) =~= old(self)@);
        }
    }

    /// The names of `v` (sorted) whose membership in `other` equals `keep_members`,
    /// in increasing order.
    fn filter_by(v: &Vec<String>, other: &EffectSet, keep_members: bool) -> (r: Vec<String>)
        requires
            sorted(views(v@)),
        ensures
            sorted(views(r@)),
            views(r@).to_set() == views(v@).to_set().filter(
                |x: Seq<char>| other@.contains(x) == keep_members,
            ),
    {
        let ghost s = views(v@);
        let ghost pred = |x: Seq<char>| other@.contains(x) == keep_members;
        let mut r: Vec<String> = Vec::new();
        let mut i: usize = 0;
        while i < v.len()
            invariant
                i <= v.len(),
                s == views(v@),
                sorted(s),
                sorted(views(r@)),
                pred == (|x: Seq<char>| other@.contains(x) == keep_members),
                views(r@).to_set() =~= s.take(i as int).to_set().filter(pred),
            decreases v.len() - i,
        {
            let x = &v[i];
            let member = other.contains(x.as_str());
            proof {
                assert(s.take(i + 1) =~= s.take(i as int).push(s[i as int]));
                s.take(i as int).lemma_push_to_set_commute(s[i as int]);
                assert(x@ == s[i as int]);
                assert(pred(s[i as int]) == (member == keep_members));
            }
            if member == keep_members {
                proof {
                    assert forall|k: int| 0 <= k < views(r@).len() implies str_lt(
                        #[trigger] views(r@)[k],
                        s[i as int],
                    ) by {
                        assert(views(r@).to_set().contains(views(r@)[k]));
                        let j = choose|j: int| 0 <= j < i && s.take(i as int)[j] == views(r@)[k];
                        assert(s[j] == views(r@)[k]);
                    }
                    lemma_sorted_push(views(r@), s[i as int]);
                }
                let ghost before = r@;
                r.push(x.clone());
                assert(views(r@) =~= views(before).push(s[i as int]));
                proof { views(before).lemma_push_to_set_commute(s[i as int]); }
                assert(views(r@).to_set() =~= s.take(i + 1).to_set().filter(pred));
            } else {
                assert(views(r@).to_set() =~= s.take(i + 1).to_set().filter(pred));
            }
            i = i + 1;
        }
        assert(s.take(v.len() as int) =~= s);
        r
    }

    /// Union of two effect sets: self ∪ other
    /// The combined effect requirements of calling both.
    pub fn union(&self, other: &EffectSet) -> (r: EffectSet)
        ensures
            r@ == self@.union(other@),
    {
        let mut r = self.clone();
        let mut i: usize = 0;
        while i < other.effects.len()
            invariant
                i <= other.effects.len(),
                r@ =~= self@.union(other.elems().take(i as int).to_set()),
            decreases other.effects.len() - i,
        {
            r.insert(other.effects[i].clone());
            assert(other.elems().take(i + 1) =~= other.elems().take(i as int).push(other.elems()[i as int]));
            proof { other.elems().take(i as int).lemma_push_to_set_commute(other.elems()[i as int]); }
            i = i + 1;
        }
        assert(other.elems().take(other.effects.len() as int) =~= other.elems());
        r
    }

    /// Intersection of two effect sets: self ∩ other
    pub fn intersection(&self, other: &EffectSet) -> (r: EffectSet)
        ensures
            r@ == self@.intersect(other@),
    {
        proof { use_type_invariant(self); }
        let v = Self::filter_by(&self.effects, other, true);
        let r = EffectSet { effects: v };
        assert(r@ =~= self@.intersect(other@));
        r
    }

    /// Difference: self \ other (effects in self but not in other)
    pub fn difference(&self, other: &EffectSet) -> (r: EffectSet)
        ensures
            r@ == self@.difference(other@),
    {
        proof { use_type_invariant(self); }
        let v = Self::filter_by(&self.effects, other, false);
        let r = EffectSet { effects: v };
        assert(r@ =~= self@.difference(other@));
        r
    }

    /// Check if `other` is a subset of self (self ⊇ other).
    /// Used for propagation checking: caller must be superset of callee.
    pub fn is_superset_of(&self, other: &EffectSet) -> (b: bool)
        ensures
            b == other@.subset_of(self@),
    {
        other.is_subset_of(self)
    }

    /// Check if self is a subset of `other` (self ⊆ other).
    pub fn is_subset_of(&self, other: &EffectSet) -> (b: bool)
        ensures
            b == self@.subset_of(other@),
    {
        let mut i: usize = 0;
        while i < self.effects.len()
            invariant
                i <= self.effects.len(),
                forall|k: int| 0 <= k < i ==> other@.contains(#[trigger] self.elems()[k]),
            decreases self.effects.len() - i,
        {
            if !other.contains(self.effects[i].as_str()) {
                assert(self@.contains(self.elems()[i as int]));
                return false;
            }
            i = i + 1;
        }
        true
    }

    /// Get effects in `required` that are missing from `self`, in increasing
    /// order.
    pub fn missing_from(&self, required: &EffectSet) -> (r: Vec<String>)
        ensures
            sorted(views(r@)),
            views(r@).to_set() == required@.difference(self@),
    {
        proof { use_type_invariant(required); }
        let r = Self::filter_by(&required.effects, self, false);
        assert(views(r@).to_set() =~= required@.difference(self@));
        r
    }

    /// The effects, in increasing order.
    pub fn iter(&self) -> (r: &[String])
        ensures
            views(r@) == self.elems(),
            sorted(views(r@)),
            views(r@).to_set() == self@,
    {
        proof { use_type_invariant(self); }
        self.effects.as_slice()
    }

    /// The member set is finite.
    pub proof fn lemma_finite(&self)
        ensures
            self@.finite(),
    {
        vstd::seq_lib::seq_to_set_is_finite(self.elems());
    }

    /// Number of effects.
    pub fn len(&self) -> (n: usize)
        ensures
            n == self@.len(),
    {
        proof {
            use_type_invariant(self);
            Self::lemma_canonical(self.elems());
        }
        self.effects.len()
    }

    /// Rendering as `[a, b, c]`, members in increasing order.
    pub fn to_string(&self) -> (s: String)
        ensures
            s@ == seq!['['] + join_names(self.elems()) + seq![']'],
    {
        let mut s = string_of("[");
        proof { reveal_strlit("["); }
        let mut i: usize = 0;
        while i < self.effects.len()
            invariant
                i <= self.effects.len(),
                s@ == seq!['['] + join_names(self.elems().take(i as int)),
            decreases self.effects.len() - i,
        {
            if i > 0 {
                s.append(", ");
                proof { reveal_strlit(", "); }
            }
            s.append(self.effects[i].as_str());
            proof {
                let t = self.elems().take(i + 1);
                assert(t.drop_last() =~= self.elems().take(i as int));
                assert(t.last() == self.elems()[i as int]);
                if i == 0 {
                    assert(self.elems().take(0) =~= Seq::<Seq<char>>::empty());
                }
            }
            assert(s@ =~= seq!['['] + join_names(self.elems().take(i + 1)));
            i = i + 1;
        }
        push_char(&mut s, ']');
        assert(self.elems().take(self.effects.len() as int) =~= self.elems());
        assert(s@ =~= seq!['['] + join_names(self.elems()) + seq![']']);
        s
    }
}


impl Default for EffectSet {
    fn default() -> (r: Self)
        ensures
            r@ == Set::<Seq<char>>::empty(),
    {
        EffectSet::new()
    }
}

/// `p` is a walk through the surface graph `g`: every step goes from a
/// surface to one of its direct components.
pub open spec fn is_walk(g: Map<Seq<char>, Set<Seq<char>>>, p: Seq<Seq<char>>) -> bool {
    &&& p.len() > 0
    &&& forall|i: int|
        0 <= i < p.len() - 1 ==> g.contains_key(#[trigger] p[i]) && g[p[i]].contains(p[i + 1])
}

/// `x` is reachable from a member of `start` through surface expansion
/// (every member reaches itself).
pub open spec fn reaches(
    g: Map<Seq<char>, Set<Seq<char>>>,
    start: Set<Seq<char>>,
    x: Seq<char>,
) -> bool {
    exists|p: Seq<Seq<char>>| #[trigger] is_walk(g, p) && start.contains(p[0]) && p.last() == x
}

/// The atomic effects of `start`: everything reachable that is not itself a
/// named surface.
pub open spec fn expansion(
    g: Map<Seq<char>, Set<Seq<char>>>,
    start: Set<Seq<char>>,
) -> Set<Seq<char>> {
    Set::new(|x: Seq<char>| reaches(g, start, x) && !g.contains_key(x))
}

/// Named effect surfaces and their component relationships.
#[derive(Debug)]
pub struct EffectHierarchy {
    /// Surface name → direct component names.
    children: NameMap<EffectSet>,
}

impl View for EffectHierarchy {
    type V = Map<Seq<char>, Set<Seq<char>>>;

    closed spec fn view(&self) -> Map<Seq<char>, Set<Seq<char>>> {
        self.children@.map_values(|s: EffectSet| s@)
    }
}

impl Default for EffectHierarchy {
    fn default() -> (r: Self)
        ensures
            r@ == Map::<Seq<char>, Set<Seq<char>>>::empty(),
    {
        EffectHierarchy::new()
    }
}

/// Every member of a set closed under the graph that holds the start of a
/// walk also holds its end.
proof fn lemma_closed_contains_walk_end(
    g: Map<Seq<char>, Set<Seq<char>>>,
    v: Set<Seq<char>>,
    p: Seq<Seq<char>>,
)
    requires
        is_walk(g, p),
        v.contains(p[0]),
        forall|x: Seq<char>| v.contains(x) && #[trigger] g.contains_key(x) ==> g[x].subset_of(v),
    ensures
        v.contains(p.last()),
    decreases p.len(),
{
    if p.len() > 1 {
        let q = p.drop_last();
        assert(is_walk(g, q)) by {
            assert forall|i: int| 0 <= i < q.len() - 1 implies g.contains_key(#[trigger] q[i])
                && g[q[i]].contains(q[i + 1]) by {
                assert(q[i] == p[i] && q[i + 1] == p[i + 1]);
            }
        }
        lemma_closed_contains_walk_end(g, v, q);
        assert(q.last() == p[p.len() - 2]);
        assert(g.contains_key(p[p.len() - 2]));
        assert(g[p[p.len() - 2]].contains(p.last()));
    }
}

impl EffectHierarchy {
    pub fn new() -> (r: Self)
        ensures
            r@ == Map::<Seq<char>, Set<Seq<char>>>::empty(),
    {
        let r = EffectHierarchy { children: NameMap::new() };
        assert(r@ =~= Map::<Seq<char>, Set<Seq<char>>>::empty());
        r
    }

    /// Register a named surface and its direct components.
    pub fn add_surface(&mut self, name: String, components: Vec<String>)
        ensures
            final(self)@ == old(self)@.insert(name@, views(components@).to_set()),
    {
        let set = EffectSet::from_names(components);
        let ghost n = name@;
        let ghost sv = set@;
        self.children.insert(name, set);
        assert(self@ =~= old(self)@.insert(n, sv));
    }

    /// Expand named surfaces into a canonical set of atomic effects.
    pub fn expand(&self, set: &EffectSet) -> (r: EffectSet)
        ensures
            r@ == expansion(self@, set@),
    {
        let (_reached, expanded) = self.explore(set);
        expanded
    }

    /// Walk the surface graph from `set`: everything reachable, and the
    /// atomic part of it.
    fn explore(&self, set: &EffectSet) -> (r: (EffectSet, EffectSet))
        ensures
            r.0@ == Set::new(|x: Seq<char>| reaches(self@, set@, x)),
            r.1@ == expansion(self@, set@),
    {
        let ghost g = self@;
        let ghost keys = g.dom();
        proof {
            self.children.lemma_dom();
            let ks = self.children.key_seq();
            assert(keys =~= ks.to_set());
            vstd::seq_lib::seq_to_set_is_finite(ks);
        }
        let mut expanded = EffectSet::new();
        let mut worklist: Vec<String> = clone_names(&set.effects);
        let mut visited = EffectSet::new();
        proof {
            assert forall|x: Seq<char>| #[trigger] views(worklist@).contains(x) implies reaches(g, set@, x) by {
                let w = seq![x];
                assert(is_walk(g, w));
            }
        }
        while worklist.len() > 0
            invariant
                g == self@,
                keys == g.dom(),
                keys.finite(),
                forall|x: Seq<char>| #[trigger] visited@.contains(x) ==> reaches(g, set@, x),
                forall|x: Seq<char>| #[trigger] views(worklist@).contains(x) ==> reaches(g, set@, x),
                expanded@ == visited@.filter(|x: Seq<char>| !g.contains_key(x)),
                forall|x: Seq<char>| visited@.contains(x) && #[trigger] g.contains_key(x) ==>
                    g[x].subset_of(visited@.union(views(worklist@).to_set())),
                set@.subset_of(visited@.union(views(worklist@).to_set())),
            decreases keys.len() - visited@.intersect(keys).len(), worklist.len(),
        {
            proof {
                visited.lemma_finite();
                vstd::set_lib::lemma_len_intersect(keys, visited@);
                assert(visited@.intersect(keys) =~= keys.intersect(visited@));
            }
            let ghost w0 = views(worklist@);
            let effect = worklist.pop().unwrap();
            let ghost w1 = views(worklist@);
            assert(w0 =~= w1.push(effect@));
            proof {
                assert forall|x: Seq<char>| #[trigger] w1.contains(x) implies reaches(g, set@, x) by {
                    let k = choose|k: int| 0 <= k < w1.len() && w1[k] == x;
                    assert(w0[k] == x);
                    assert(w0.contains(x));
                }
                assert(w0[w0.len() - 1] == effect@);
                assert(w0.contains(effect@));
            }
            if visited.contains(effect.as_str()) {
                assert(visited@.union(w0.to_set()) =~= visited@.union(w1.to_set())) by {
                    w1.lemma_push_to_set_commute(effect@);
                }
                continue;
            }
            let ghost v0 = visited@;
            visited.insert(effect.clone());
            proof {
                w1.lemma_push_to_set_commute(effect@);
                assert(visited@.union(w1.to_set()) =~= v0.union(w0.to_set()));
            }
            match self.children.get(effect.as_str()) {
                Some(children) => {
                    let ghost cs = children@;
                    assert(g[effect@] == cs);
                    let mut j: usize = 0;
                    while j < children.effects.len()
                        invariant
                            j <= children.effects.len(),
                            cs == children@,
                            views(worklist@) =~= w1 + children.elems().take(j as int),
                            reaches(g, set@, effect@),
                            g.contains_key(effect@),
                            g[effect@] == cs,
                            forall|x: Seq<char>| #[trigger] views(worklist@).contains(x) ==> reaches(g, set@, x),
                        decreases children.effects.len() - j,
                    {
                        let ghost before = worklist@;
                        worklist.push(children.effects[j].clone());
                        let ghost c = children.elems()[j as int];
                        assert(views(worklist@) =~= views(before).push(c));
                        assert(children.elems().take(j + 1) =~= children.elems().take(j as int).push(c));
                        proof {
                            assert(cs.contains(c));
                            let p = choose|p: Seq<Seq<char>>| #[trigger] is_walk(g, p) && set@.contains(p[0]) && p.last() == effect@;
                            let q = p.push(c);
                            assert(is_walk(g, q)) by {
                                assert forall|i: int| 0 <= i < q.len() - 1 implies g.contains_key(#[trigger] q[i])
                                    && g[q[i]].contains(q[i + 1]) by {
                                    if i < p.len() - 1 {
                                        assert(q[i] == p[i] && q[i + 1] == p[i + 1]);
                                    } else {
                                        assert(q[i] == effect@ && q[i + 1] == c);
                                    }
                                }
                            }
                            assert(q[0] == p[0]);
                            assert forall|x: Seq<char>| #[trigger] views(worklist@).contains(x) implies reaches(g, set@, x) by {
                                if x != c {
                                    let k = choose|k: int| 0 <= k < views(worklist@).len() && views(worklist@)[k] == x;
                                    assert(views(before)[k] == x);
                                    assert(views(before).contains(x));
                                } else {
                                    assert(reaches(g, set@, x));
                                }
                            }
                        }
                        j = j + 1;
                    }
                    proof {
                        assert(children.elems().take(children.effects.len() as int) =~= children.elems());
                        let wl = views(worklist@);
                        assert(wl.to_set() =~= w1.to_set().union(cs)) by {
                            assert forall|x: Seq<char>| wl.to_set().contains(x) == w1.to_set().union(cs).contains(x) by {
                                if wl.contains(x) {
                                    let k = choose|k: int| 0 <= k < wl.len() && wl[k] == x;
                                    if k >= w1.len() {
                                        assert(children.elems()[k - w1.len()] == x);
                                    } else {
                                        assert(w1[k] == x);
                                    }
                                }
                                if w1.contains(x) {
                                    let k = choose|k: int| 0 <= k < w1.len() && w1[k] == x;
                                    assert(wl[k] == x);
                                }
                                if cs.contains(x) {
                                    let k = choose|k: int| 0 <= k < children.elems().len() && children.elems()[k] == x;
                                    assert(wl[w1.len() + k] == x);
                                }
                            }
                        }
                        assert(visited@.intersect(keys) =~= v0.intersect(keys).insert(effect@));
                        assert(!v0.intersect(keys).contains(effect@));
                        vstd::set_lib::lemma_len_intersect(keys, v0);
                        assert(v0.intersect(keys) =~= keys.intersect(v0));
                        vstd::set_lib::lemma_len_intersect(keys, visited@);
                        assert(visited@.intersect(keys) =~= keys.intersect(visited@));
                    }
                    assert(expanded@ =~= visited@.filter(|x: Seq<char>| !g.contains_key(x)));
                }
                None => {
                    let ghost e0 = expanded@;
                    expanded.insert(effect);
                    assert(expanded@ =~= visited@.filter(|x: Seq<char>| !g.contains_key(x)));
                    assert(visited@.intersect(keys) =~= v0.intersect(keys));
                }
            }
        }
        proof {
            assert(views(worklist@).to_set() =~= Set::<Seq<char>>::empty());
            assert forall|x: Seq<char>| expanded@.contains(x) == expansion(g, set@).contains(x) by {
                if reaches(g, set@, x) && !g.contains_key(x) {
                    let p = choose|p: Seq<Seq<char>>| #[trigger] is_walk(g, p) && set@.contains(p[0]) && p.last() == x;
                    lemma_closed_contains_walk_end(g, visited@, p);
                }
            }
            assert(expanded@ =~= expansion(g, set@));
            assert forall|x: Seq<char>| visited@.contains(x) == reaches(g, set@, x) by {
                if reaches(g, set@, x) {
                    let p = choose|p: Seq<Seq<char>>| #[trigger] is_walk(g, p) && set@.contains(p[0]) && p.last() == x;
                    lemma_closed_contains_walk_end(g, visited@, p);
                }
            }
            assert(visited@ =~= Set::new(|x: Seq<char>| reaches(g, set@, x)));
        }
        (visited, expanded)
    }

    /// Check if `declared` effects (after expansion) are a superset of `required`.
    /// On failure, the required effects that the expansion lacks, in
    /// increasing order.
    pub fn check_propagation(
        &self,
        declared: &EffectSet,
        required: &EffectSet,
    ) -> (r: Result<(), Vec<String>>)
        ensures
            r is Ok <==> required@.subset_of(expansion(self@, declared@)),
            r matches Err(missing) ==> {
                &&& sorted(views(missing@))
                &&& views(missing@).to_set() == required@.difference(expansion(self@, declared@))
            },
    {
        let expanded = self.expand(declared);
        let missing = expanded.missing_from(required);
        if missing.len() == 0 {
            assert(required@.subset_of(expansion(self@, declared@))) by {
                assert forall|x: Seq<char>| required@.contains(x) implies expanded@.contains(x) by {
                    if !expanded@.contains(x) {
                        assert(required@.difference(expanded@).contains(x));
                        assert(views(missing@).to_set().contains(x));
                    }
                }
            }
            Ok(())
        } else {
            assert(views(missing@).to_set().contains(views(missing@)[0]));
            Err(missing)
        }
    }

    /// Return whether a named surface expands recursively to itself: some
    /// chain of expansions starting at `root` leads back to `root`.
    pub fn has_cycle(&self, root: &str) -> (b: bool)
        ensures
            b == returns_to(self@, root@),
    {
        let ghost g = self@;
        match self.children.get(root) {
            None => {
                proof {
                    if returns_to(g, root@) {
                        let p = choose|p: Seq<Seq<char>>| #[trigger] is_walk(g, p) && p.len() >= 2
                            && p[0] == root@ && p.last() == root@;
                        assert(g.contains_key(p[0]));
                    }
                }
                false
            },
            Some(components) => {
                assert(g.contains_key(root@) && g[root@] == components@);
                let (reached, _atomic) = self.explore(components);
                let b = reached.contains(root);
                proof {
                    if b {
                        assert(reached@.contains(root@));
                        let q = choose|q: Seq<Seq<char>>| #[trigger] is_walk(g, q) && components@.contains(q[0])
                            && q.last() == root@;
                        let p = seq![root@] + q;
                        assert(is_walk(g, p)) by {
                            assert forall|i: int| 0 <= i < p.len() - 1 implies g.contains_key(#[trigger] p[i])
                                && g[p[i]].contains(p[i + 1]) by {
                                if i == 0 {
                                    assert(p[0] == root@ && p[1] == q[0]);
                                } else {
                                    assert(p[i] == q[i - 1] && p[i + 1] == q[i]);
                                }
                            }
                        }
                        assert(p.last() == q.last());
                    }
                    if returns_to(g, root@) {
                        let p = choose|p: Seq<Seq<char>>| #[trigger] is_walk(g, p) && p.len() >= 2
                            && p[0] == root@ && p.last() == root@;
                        let q = p.drop_first();
                        assert(is_walk(g, q)) by {
                            assert forall|i: int| 0 <= i < q.len() - 1 implies g.contains_key(#[trigger] q[i])
                                && g[q[i]].contains(q[i + 1]) by {
                                assert(q[i] == p[i + 1] && q[i + 1] == p[i + 2]);
                            }
                        }
                        assert(g[p[0]].contains(p[1]));
                        assert(q[0] == p[1]);
                        assert(q.last() == p.last());
                        assert(reaches(g, components@, root@));
                        assert(reached@.contains(root@));
                    }
                }
                b
            },
        }
    }
}

/// Some chain of expansions, at least one step long, leads from `root`
/// back to `root`.
pub open spec fn returns_to(g: Map<Seq<char>, Set<Seq<char>>>, root: Seq<char>) -> bool {
    exists|p: Seq<Seq<char>>| #[trigger] is_walk(g, p) && p.len() >= 2 && p[0] == root && p.last() == root
}

} // verus!
