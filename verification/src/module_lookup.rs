//! Calling the functions of registered modules (the prelude's builtins
//! among them): finding a function's signature and renaming its type
//! variables apart.

use vstd::prelude::*;
use crate::check::{Checker, Substitution, advance, frame, mentions, mentions_fields, mentions_list};
use crate::effect_set::EffectSet;
use crate::module::ModuleInterface;
use crate::names::sorted_listing;
use crate::types::{Ty, TyV, clone_tys, clone_ty, fields_view, ty_view, tys_view};

verus! {

// ---------------------------------------------------------------------------
// Renaming type variables
// ---------------------------------------------------------------------------

/// `t` with each variable that `m` maps replaced by its image (images are
/// not looked into again).
pub open spec fn rename_view(m: Map<u32, TyV>, t: TyV) -> TyV
    decreases t,
{
    match t {
        TyV::Var(id) => if m.contains_key(id) {
            m[id]
        } else {
            t
        },
        TyV::App(n, xs) => TyV::App(n, rename_list(m, xs)),
        TyV::Tuple(xs) => TyV::Tuple(rename_list(m, xs)),
        TyV::Fn(ps, r, c) => TyV::Fn(rename_list(m, ps), Box::new(rename_view(m, *r)), c),
        TyV::Outcome(a, b) => TyV::Outcome(Box::new(rename_view(m, *a)), Box::new(rename_view(m, *b))),
        TyV::Record(fs) => TyV::Record(rename_fields(m, fs)),
        TyV::Refined(b, v, p) => TyV::Refined(Box::new(rename_view(m, *b)), v, p),
        _ => t,
    }
}

pub open spec fn rename_list(m: Map<u32, TyV>, xs: Seq<TyV>) -> Seq<TyV>
    decreases xs,
{
    if xs.len() == 0 {
        Seq::empty()
    } else {
        rename_list(m, xs.drop_last()).push(rename_view(m, xs.last()))
    }
}

pub open spec fn rename_fields(m: Map<u32, TyV>, fs: Seq<(Seq<char>, TyV)>) -> Seq<(Seq<char>, TyV)>
    decreases fs,
{
    if fs.len() == 0 {
        Seq::empty()
    } else {
        rename_fields(m, fs.drop_last()).push((fs.last().0, rename_view(m, fs.last().1)))
    }
}

/// Strictly increasing.
pub open spec fn increasing(q: Seq<u32>) -> bool {
    forall|a: int, b: int| 0 <= a < b < q.len() ==> #[trigger] q[a] < #[trigger] q[b]
}

/// The variables that a signature mentions.
pub open spec fn signature_vars(params: Seq<TyV>, ret: TyV) -> Set<u32> {
    Set::new(|id: u32| mentions_list(params, id) || mentions(ret, id))
}

/// The `k`-th smallest of the variables is renamed to the `k`-th fresh
/// variable handed out from counter `v`.
pub open spec fn fresh_renaming(ids: Seq<u32>, v: u32) -> Map<u32, TyV> {
    Map::new(
        |id: u32| ids.contains(id),
        |id: u32| TyV::Var(advance(v, ids.index_of(id) as nat)),
    )
}

// ---------------------------------------------------------------------------
// Finding a module function
// ---------------------------------------------------------------------------

/// The first of `keys` from position `i` on whose module exports function
/// `name`.
pub open spec fn first_exporter(
    mods: Map<Seq<char>, ModuleInterface>,
    keys: Seq<Seq<char>>,
    name: Seq<char>,
    i: nat,
) -> Option<Seq<char>>
    decreases keys.len() - i,
{
    if i >= keys.len() {
        None
    } else if mods[keys[i as int]].functions@.contains_key(name) {
        Some(keys[i as int])
    } else {
        first_exporter(mods, keys, name, i + 1)
    }
}

/// The signature of function `name` as the first module, in increasing
/// name order, that exports it declares it: parameter and result types
/// and required effects.
pub open spec fn module_signature(mods: Map<Seq<char>, ModuleInterface>, name: Seq<char>) -> Option<
    (Seq<TyV>, TyV, Set<Seq<char>>),
> {
    match first_exporter(mods, sorted_listing(mods.dom()), name, 0) {
        None => None,
        Some(k) => {
            let m = mods[k];
            let sig = m.functions@[name];
            Some(
                (
                    tys_view(sig.0@),
                    ty_view(sig.1),
                    if m.function_caps@.contains_key(name) {
                        m.function_caps@[name]@
                    } else {
                        Set::empty()
                    },
                ),
            )
        },
    }
}

/// Inserts `id` into the increasing list `ids`, unless it is there.
fn insert_id(ids: &mut Vec<u32>, id: u32)
    requires
        increasing(old(ids)@),
    ensures
        increasing(final(ids)@),
        final(ids)@.to_set() == old(ids)@.to_set().insert(id),
{
    let mut p: usize = 0;
    while p < ids.len() && ids[p] < id
        invariant
            p <= ids@.len(),
            forall|k: int| 0 <= k < p ==> ids@[k] < id,
        decreases ids.len() - p,
    {
        p = p + 1;
    }
    if p < ids.len() && ids[p] == id {
        assert(ids@.to_set() =~= ids@.to_set().insert(id));
        return;
    }
    let ghost before = ids@;
    ids.insert(p, id);
    assert forall|a: int, b: int| 0 <= a < b < ids@.len() implies #[trigger] ids@[a] < #[trigger] ids@[b] by {
        if b < p {
            assert(ids@[a] == before[a] && ids@[b] == before[b]);
        } else if b == p {
            assert(ids@[a] == before[a]);
        } else if a < p {
            assert(ids@[a] == before[a] && ids@[b] == before[b - 1]);
        } else if a == p {
            assert(ids@[b] == before[b - 1]);
            assert(before[p as int] > id || before[p as int] == id);
        } else {
            assert(ids@[a] == before[a - 1] && ids@[b] == before[b - 1]);
        }
    }
    assert(ids@.to_set() =~= before.to_set().insert(id)) by {
        assert forall|x: u32| ids@.to_set().contains(x) implies before.to_set().insert(id).contains(x) by {
            let k = choose|k: int| 0 <= k < ids@.len() && ids@[k] == x;
            if k < p {
                assert(before[k] == x);
            } else if k > p {
                assert(before[k - 1] == x);
            }
        }
        assert forall|x: u32| before.to_set().insert(id).contains(x) implies ids@.to_set().contains(x) by {
            if x == id {
                assert(ids@[p as int] == id);
            } else {
                let k = choose|k: int| 0 <= k < before.len() && before[k] == x;
                if k < p {
                    assert(ids@[k] == x);
                } else {
                    assert(ids@[k + 1] == x);
                }
            }
        }
    }
}

/// The variables of a set in increasing order.
pub open spec fn ascending(st: Set<u32>) -> Seq<u32> {
    choose|q: Seq<u32>| increasing(q) && q.to_set() == st
}

/// Two increasing lists with the same members are the same list.
proof fn lemma_increasing_unique(a: Seq<u32>, b: Seq<u32>)
    requires
        increasing(a),
        increasing(b),
        a.to_set() == b.to_set(),
    ensures
        a == b,
    decreases a.len(),
{
    if a.len() == 0 {
        if b.len() > 0 {
            assert(b.to_set().contains(b[0]));
        }
        assert(a =~= b);
    } else if b.len() == 0 {
        assert(a.to_set().contains(a[0]));
    } else {
        assert(a.to_set().contains(a[0]));
        assert(b.to_set().contains(b[0]));
        let ia = choose|i: int| 0 <= i < a.len() && a[i] == b[0];
        let ib = choose|i: int| 0 <= i < b.len() && b[i] == a[0];
        if a[0] != b[0] {
            assert(ia > 0 && ib > 0);
            assert(a[0] < a[ia]);
            assert(b[0] < b[ib]);
        }
        let a1 = a.drop_first();
        let b1 = b.drop_first();
        assert forall|x: u32| a1.to_set().contains(x) implies b1.to_set().contains(x) by {
            let i = choose|i: int| 0 <= i < a1.len() && a1[i] == x;
            assert(a[i + 1] == x);
            assert(a.to_set().contains(x));
            let j = choose|j: int| 0 <= j < b.len() && b[j] == x;
            if j == 0 {
                assert(a[0] < a[i + 1]);
            }
            assert(b1[j - 1] == x);
        }
        assert forall|x: u32| b1.to_set().contains(x) implies a1.to_set().contains(x) by {
            let i = choose|i: int| 0 <= i < b1.len() && b1[i] == x;
            assert(b[i + 1] == x);
            assert(b.to_set().contains(x));
            let j = choose|j: int| 0 <= j < a.len() && a[j] == x;
            if j == 0 {
                assert(b[0] < b[i + 1]);
            }
            assert(a1[j - 1] == x);
        }
        assert(a1.to_set() =~= b1.to_set());
        lemma_increasing_unique(a1, b1);
        assert(a =~= seq![a[0]] + a1);
        assert(b =~= seq![b[0]] + b1);
    }
}

/// In an increasing list the position of a member is where it stands.
proof fn lemma_increasing_index(q: Seq<u32>, j: int)
    requires
        increasing(q),
        0 <= j < q.len(),
    ensures
        q.index_of(q[j]) == j,
{
    assert(q.contains(q[j]));
    let k = q.index_of(q[j]);
    if k != j {
        if k < j {
            assert(q[k] < q[j]);
        } else {
            assert(q[j] < q[k]);
        }
    }
}

impl Checker {
    /// Adds each type variable that `ty` mentions to the increasing list
    /// `ids`.
    pub fn collect_vars(ty: &Ty, ids: &mut Vec<u32>)
        requires
            increasing(old(ids)@),
        ensures
            increasing(final(ids)@),
            final(ids)@.to_set() == old(ids)@.to_set() + Set::new(|id: u32| mentions(ty_view(*ty), id)),
        decreases ty,
    {
        match ty {
            Ty::Var(id) => {
                insert_id(ids, *id);
                assert(ids@.to_set() =~= old(ids)@.to_set() + Set::new(|x: u32| mentions(ty_view(*ty), x)));
            },
            Ty::App(_, args) => {
                Self::collect_vars_list(args, ids);
                assert(ids@.to_set() =~= old(ids)@.to_set() + Set::new(|x: u32| mentions(ty_view(*ty), x)));
            },
            Ty::Tuple(ts) => {
                Self::collect_vars_list(ts, ids);
                assert(ids@.to_set() =~= old(ids)@.to_set() + Set::new(|x: u32| mentions(ty_view(*ty), x)));
            },
            Ty::Fn(ps, r, _) => {
                Self::collect_vars_list(ps, ids);
                Self::collect_vars(r, ids);
                assert(ids@.to_set() =~= old(ids)@.to_set() + Set::new(|x: u32| mentions(ty_view(*ty), x)));
            },
            Ty::Outcome(a, b) => {
                Self::collect_vars(a, ids);
                Self::collect_vars(b, ids);
                assert(ids@.to_set() =~= old(ids)@.to_set() + Set::new(|x: u32| mentions(ty_view(*ty), x)));
            },
            Ty::Record(fields) => {
                let ghost fv = fields_view(fields@);
                let mut i: usize = 0;
                assert(fields_view(fields@.take(0)) =~= Seq::<(Seq<char>, TyV)>::empty());
                assert(ids@.to_set() =~= old(ids)@.to_set() + Set::new(
                    |x: u32| mentions_fields(fields_view(fields@.take(0)), x),
                ));
                #[verifier::loop_isolation(false)]
                while i < fields.len()
                    invariant
                        i <= fields@.len(),
                        increasing(ids@),
                        ids@.to_set() == old(ids)@.to_set() + Set::new(
                            |x: u32| mentions_fields(fields_view(fields@.take(i as int)), x),
                        ),
                    decreases fields.len() - i,
                {
                    proof {
                        assert(decreases_to!(*ty => fields@[i as int].1));
                    }
                    Self::collect_vars(&fields[i].1, ids);
                    assert(fields@.take(i + 1).drop_last() =~= fields@.take(i as int));
                    assert(fields_view(fields@.take(i + 1)).drop_last() =~= fields_view(fields@.take(i as int)));
                    assert(ids@.to_set() =~= old(ids)@.to_set() + Set::new(
                        |x: u32| mentions_fields(fields_view(fields@.take(i + 1)), x),
                    ));
                    i = i + 1;
                }
                assert(fields@.take(fields.len() as int) =~= fields@);
                assert(ids@.to_set() =~= old(ids)@.to_set() + Set::new(|x: u32| mentions(ty_view(*ty), x)));
            },
            Ty::Refined(b, _, _) => {
                Self::collect_vars(b, ids);
                assert(ids@.to_set() =~= old(ids)@.to_set() + Set::new(|x: u32| mentions(ty_view(*ty), x)));
            },
            _ => {
                assert(ids@.to_set() =~= old(ids)@.to_set() + Set::new(|x: u32| mentions(ty_view(*ty), x)));
            },
        }
    }

    fn collect_vars_list(ts: &Vec<Ty>, ids: &mut Vec<u32>)
        requires
            increasing(old(ids)@),
        ensures
            increasing(final(ids)@),
            final(ids)@.to_set() == old(ids)@.to_set() + Set::new(|id: u32| mentions_list(tys_view(ts@), id)),
        decreases ts@,
    {
        let mut i: usize = 0;
        assert(tys_view(ts@.take(0)) =~= Seq::<TyV>::empty());
        assert(ids@.to_set() =~= old(ids)@.to_set() + Set::new(|x: u32| mentions_list(tys_view(ts@.take(0)), x)));
        while i < ts.len()
            invariant
                i <= ts@.len(),
                increasing(ids@),
                ids@.to_set() == old(ids)@.to_set() + Set::new(|x: u32| mentions_list(tys_view(ts@.take(i as int)), x)),
            decreases ts.len() - i,
        {
            Self::collect_vars(&ts[i], ids);
            assert(ts@.take(i + 1).drop_last() =~= ts@.take(i as int));
            assert(tys_view(ts@.take(i + 1)).drop_last() =~= tys_view(ts@.take(i as int)));
            assert(ids@.to_set() =~= old(ids)@.to_set() + Set::new(
                |x: u32| mentions_list(tys_view(ts@.take(i + 1)), x),
            ));
            i = i + 1;
        }
        assert(ts@.take(ts.len() as int) =~= ts@);
    }

    /// `ty` with each variable that `mapping` maps replaced by a copy of its
    /// image.
    pub fn replace_vars(ty: &Ty, mapping: &Substitution) -> (r: Ty)
        ensures
            ty_view(r) == rename_view(mapping@, ty_view(*ty)),
        decreases ty,
    {
        match ty {
            Ty::Var(id) => match mapping.get(id) {
                Some(t) => clone_ty(t),
                None => Ty::Var(*id),
            },
            Ty::App(name, args) => Ty::App(name.clone(), Self::replace_vars_list(args, mapping)),
            Ty::Tuple(ts) => Ty::Tuple(Self::replace_vars_list(ts, mapping)),
            Ty::Fn(ps, r, caps) => Ty::Fn(
                Self::replace_vars_list(ps, mapping),
                Box::new(Self::replace_vars(r, mapping)),
                caps.clone(),
            ),
            Ty::Outcome(a, b) => Ty::Outcome(
                Box::new(Self::replace_vars(a, mapping)),
                Box::new(Self::replace_vars(b, mapping)),
            ),
            Ty::Record(fields) => {
                let ghost m = mapping@;
                let mut out: Vec<(String, Ty)> = Vec::new();
                let mut i: usize = 0;
                assert(fields_view(fields@.take(0)) =~= Seq::<(Seq<char>, TyV)>::empty());
                assert(fields_view(out@) =~= Seq::<(Seq<char>, TyV)>::empty());
                #[verifier::loop_isolation(false)]
                while i < fields.len()
                    invariant
                        i <= fields@.len(),
                        fields_view(out@) == rename_fields(m, fields_view(fields@.take(i as int))),
                    decreases fields.len() - i,
                {
                    proof {
                        assert(decreases_to!(*ty => fields@[i as int].1));
                    }
                    let t = Self::replace_vars(&fields[i].1, mapping);
                    let ghost prev = out@;
                    out.push((fields[i].0.clone(), t));
                    assert(out@.drop_last() =~= prev);
                    assert(fields@.take(i + 1).drop_last() =~= fields@.take(i as int));
                    assert(fields_view(fields@.take(i + 1)).drop_last() =~= fields_view(fields@.take(i as int)));
                    i = i + 1;
                }
                assert(fields@.take(fields.len() as int) =~= fields@);
                Ty::Record(out)
            },
            Ty::Refined(b, v, p) => Ty::Refined(
                Box::new(Self::replace_vars(b, mapping)),
                v.clone(),
                crate::ast::share_predicate(p),
            ),
            other => clone_ty(other),
        }
    }

    fn replace_vars_list(ts: &Vec<Ty>, mapping: &Substitution) -> (r: Vec<Ty>)
        ensures
            tys_view(r@) == rename_list(mapping@, tys_view(ts@)),
        decreases ts@,
    {
        let ghost m = mapping@;
        let mut out: Vec<Ty> = Vec::new();
        let mut i: usize = 0;
        assert(tys_view(ts@.take(0)) =~= Seq::<TyV>::empty());
        assert(tys_view(out@) =~= Seq::<TyV>::empty());
        while i < ts.len()
            invariant
                i <= ts@.len(),
                m == mapping@,
                tys_view(out@) == rename_list(m, tys_view(ts@.take(i as int))),
            decreases ts.len() - i,
        {
            let t = Self::replace_vars(&ts[i], mapping);
            let ghost prev = out@;
            out.push(t);
            assert(out@.drop_last() =~= prev);
            assert(ts@.take(i + 1).drop_last() =~= ts@.take(i as int));
            assert(tys_view(ts@.take(i + 1)).drop_last() =~= tys_view(ts@.take(i as int)));
            i = i + 1;
        }
        assert(ts@.take(ts.len() as int) =~= ts@);
        out
    }
}

impl Checker {
    /// The signature of function `name` as the first module, in increasing
    /// name order, that exports it declares it, with its type variables
    /// renamed apart: the `k`-th smallest becomes the `k`-th fresh variable.
    /// None when no module exports it.
    pub fn lookup_module_function(&mut self, name: &str) -> (r: Option<(Vec<Ty>, Ty, EffectSet)>)
        ensures
            match module_signature(old(self).module_registry.modules_view(), name@) {
                None => r is None && final(self).next_var() == old(self).next_var(),
                Some(sig) => {
                    let ids = ascending(signature_vars(sig.0, sig.1));
                    let m = fresh_renaming(ids, old(self).next_var());
                    &&& r matches Some(x) && tys_view(x.0@) == rename_list(m, sig.0) && ty_view(x.1)
                        == rename_view(m, sig.1) && x.2@ == sig.2
                    &&& final(self).next_var() == advance(old(self).next_var(), ids.len())
                },
            },
            final(self).errors == old(self).errors,
            frame(*old(self), *final(self)),
            final(self).module_registry == old(self).module_registry,
    {
        let ghost mv = self.module_registry.modules_view();
        let ghost keys = sorted_listing(mv.dom());
        let (params, ret, caps) = {
            let mods = self.module_registry.all_interfaces();
            let mut i: usize = 0;
            let mut found: Option<usize> = None;
            while found.is_none() && i < mods.len()
                invariant
                    i <= mods@.len(),
                    mods@.len() == keys.len(),
                    forall|j: int| 0 <= j < mods@.len() ==> *#[trigger] mods@[j] == mv[keys[j]],
                    found is None ==> first_exporter(mv, keys, name@, 0) == first_exporter(mv, keys, name@, i as nat),
                    found matches Some(k) ==> k < mods@.len() && first_exporter(mv, keys, name@, 0) == Some(keys[k as int])
                        && mods@[k as int].functions@.contains_key(name@),
                decreases mods.len() - i,
            {
                if mods[i].functions.contains_key(name) {
                    found = Some(i);
                }
                i = i + 1;
            }
            let k = match found {
                Some(k) => k,
                None => {
                    assert(i >= mods@.len());
                    assert(first_exporter(mv, keys, name@, i as nat) is None);
                    assert(module_signature(mv, name@) is None);
                    return None;
                },
            };
            let m = mods[k];
            let sig = match m.functions.get(name) {
                Some(sig) => sig,
                None => return None,
            };
            let caps = match m.function_caps.get(name) {
                Some(c) => c.clone(),
                None => EffectSet::new(),
            };
            (clone_tys(&sig.0), clone_ty(&sig.1), caps)
        };
        let ghost sig = module_signature(mv, name@)->0;
        assert(tys_view(params@) == sig.0 && ty_view(ret) == sig.1 && caps@ == sig.2);
        let mut ids: Vec<u32> = Vec::new();
        assert(ids@.to_set() =~= Set::<u32>::empty());
        Self::collect_vars_list(&params, &mut ids);
        Self::collect_vars(&ret, &mut ids);
        let ghost st = signature_vars(sig.0, sig.1);
        proof {
            assert(ids@.to_set() =~= st);
            assert(increasing(ascending(st)) && ascending(st).to_set() == st);
            lemma_increasing_unique(ids@, ascending(st));
        }
        let ghost v0 = self.next_var();
        let mut mapping = Substitution::new();
        let mut k: usize = 0;
        assert(mapping@ =~= Map::new(
            |id: u32| ids@.take(0).contains(id),
            |id: u32| TyV::Var(advance(v0, ids@.index_of(id) as nat)),
        ));
        while k < ids.len()
            invariant
                k <= ids@.len(),
                increasing(ids@),
                v0 == old(self).next_var(),
                self.next_var() == advance(v0, k as nat),
                self.errors == old(self).errors,
                frame(*old(self), *self),
                self.module_registry == old(self).module_registry,
                mapping@ == Map::new(
                    |id: u32| ids@.take(k as int).contains(id),
                    |id: u32| TyV::Var(advance(v0, ids@.index_of(id) as nat)),
                ),
            decreases ids.len() - k,
        {
            let v = self.fresh_var();
            let ghost before = mapping@;
            mapping.insert(ids[k], v);
            proof {
                lemma_increasing_index(ids@, k as int);
                assert forall|id: u32| ids@.take(k + 1).contains(id) <==> (ids@.take(k as int).contains(id) || id == ids@[k as int]) by {
                    if ids@.take(k + 1).contains(id) {
                        let j = choose|j: int| 0 <= j < k + 1 && #[trigger] ids@.take(k + 1)[j] == id;
                        if j < k {
                            assert(ids@.take(k as int)[j] == id);
                        }
                    }
                    if ids@.take(k as int).contains(id) {
                        let j = choose|j: int| 0 <= j < k && #[trigger] ids@.take(k as int)[j] == id;
                        assert(ids@.take(k + 1)[j] == id);
                    }
                    if id == ids@[k as int] {
                        assert(ids@.take(k + 1)[k as int] == id);
                    }
                }
                assert(mapping@ =~= Map::new(
                    |id: u32| ids@.take(k + 1).contains(id),
                    |id: u32| TyV::Var(advance(v0, ids@.index_of(id) as nat)),
                ));
            }
            k = k + 1;
        }
        assert(ids@.take(ids.len() as int) =~= ids@);
        assert(mapping@ =~= fresh_renaming(ids@, v0));
        let params2 = Self::replace_vars_list(&params, &mapping);
        let ret2 = Self::replace_vars(&ret, &mapping);
        Some((params2, ret2, caps))
    }
}

} // verus!
