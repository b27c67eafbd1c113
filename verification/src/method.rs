//! Method lookup: matching a method's owner type against a receiver type,
//! instantiating the chosen method, and choosing among the candidates.

use vstd::prelude::*;
use crate::check::{
    Checker, Diags, apply_view, frame, inst_list, inst_view, mapping_views, next_id, targets,
};
use crate::env::{InstantiatedMethod, MethodInfo};
use crate::error::{ErrorCode, diags};
use crate::name_map::NameMap;
use crate::names::{clone_names, views};
use crate::text::{str_eq, string_of};
use crate::types::{Ty, TyV, clone_ty, clone_tys, lemma_tys_view, ty_eq, ty_same, ty_view, tys_view};

verus! {

// ---------------------------------------------------------------------------
// Owner matching
// ---------------------------------------------------------------------------

/// Matching the owner type `template` of a method (with type parameters
/// `tps`) against the type `actual` under substitution `s`, extending the
/// mapping `m` of type parameters: whether it matches, and the mapping
/// after.
///
/// `actual` is resolved first. A type parameter matches anything the first
/// time, and is then mapped to it; later it matches only what its mapping
/// resolves to. A refinement matches as its base; an application matches
/// an application of the same name and arity whose arguments match in
/// order (stopping at the first that does not); anything else matches an
/// equal type.
pub open spec fn owner_match(
    s: Map<u32, TyV>,
    tps: Seq<Seq<char>>,
    m: Map<Seq<char>, TyV>,
    template: TyV,
    actual: TyV,
) -> (bool, Map<Seq<char>, TyV>)
    decreases template, 0nat,
{
    let a = apply_view(s, s.dom().len(), actual);
    match template {
        TyV::Named(n) => if tps.contains(n) {
            if m.contains_key(n) {
                (ty_same(apply_view(s, s.dom().len(), m[n]), a), m)
            } else {
                (true, m.insert(n, a))
            }
        } else {
            (ty_same(template, a), m)
        },
        TyV::Refined(b, _, _) => owner_match(s, tps, m, *b, a),
        TyV::App(n, xs) => match a {
            TyV::App(an, axs) => if n == an && xs.len() == axs.len() {
                owner_match_args(s, tps, m, xs, axs, 0)
            } else {
                (false, m)
            },
            _ => (false, m),
        },
        _ => (ty_same(template, a), m),
    }
}

/// Matching the arguments from position `i` on, in order, stopping at the
/// first that does not match.
pub open spec fn owner_match_args(
    s: Map<u32, TyV>,
    tps: Seq<Seq<char>>,
    m: Map<Seq<char>, TyV>,
    xs: Seq<TyV>,
    ys: Seq<TyV>,
    i: nat,
) -> (bool, Map<Seq<char>, TyV>)
    decreases xs, xs.len() - i,
{
    if i >= xs.len() || i >= ys.len() {
        (true, m)
    } else {
        let (b, m1) = owner_match(s, tps, m, xs[i as int], ys[i as int]);
        if !b {
            (false, m1)
        } else {
            owner_match_args(s, tps, m1, xs, ys, i + 1)
        }
    }
}

/// Whether `name` is in `list`.
pub(crate) fn contains_name(list: &[String], name: &str) -> (b: bool)
    ensures
        b == views(list@).contains(name@),
{
    let mut i: usize = 0;
    while i < list.len()
        invariant
            i <= list@.len(),
            forall|k: int| 0 <= k < i ==> list@[k]@ != name@,
        decreases list.len() - i,
    {
        if str_eq(list[i].as_str(), name) {
            assert(views(list@)[i as int] == name@);
            return true;
        }
        i = i + 1;
    }
    assert forall|k: int| 0 <= k < views(list@).len() implies views(list@)[k] != name@ by {
        assert(views(list@)[k] == list@[k]@);
    }
    false
}

impl Checker {
    /// Whether the owner type `template` of a method with type parameters
    /// `type_params` matches `actual`, extending `mapping` as `owner_match`
    /// says.
    pub fn method_owner_matches(
        &self,
        template: &Ty,
        actual: &Ty,
        type_params: &[String],
        mapping: &mut NameMap<Ty>,
    ) -> (b: bool)
        ensures
            ({
                let (ok, m) = owner_match(
                    self.substitution@,
                    views(type_params@),
                    mapping_views(old(mapping)@),
                    ty_view(*template),
                    ty_view(*actual),
                );
                &&& b == ok
                &&& mapping_views(final(mapping)@) == m
            }),
        decreases template, 1nat,
    {
        let actual = self.apply_subst(actual);
        match template {
            Ty::Named(name) if contains_name(type_params, name.as_str()) => {
                match mapping.get(name.as_str()) {
                    Some(previous) => {
                        let resolved = self.apply_subst(previous);
                        ty_eq(&resolved, &actual)
                    },
                    None => {
                        let ghost before = mapping@;
                        let a = clone_ty(&actual);
                        mapping.insert(name.clone(), a);
                        assert(mapping_views(mapping@) =~= mapping_views(before).insert(name@, ty_view(actual)));
                        true
                    },
                }
            },
            Ty::Refined(base, _, _) => self.method_owner_matches(base, &actual, type_params, mapping),
            Ty::App(name, args) => {
                match &actual {
                    Ty::App(actual_name, actual_args) => {
                        proof {
                            lemma_tys_view(args@);
                            lemma_tys_view(actual_args@);
                        }
                        if str_eq(name.as_str(), actual_name.as_str()) && args.len() == actual_args.len() {
                            self.owner_args_match(args, actual_args, type_params, mapping)
                        } else {
                            false
                        }
                    },
                    _ => false,
                }
            },
            _ => ty_eq(template, &actual),
        }
    }

    /// Whether each argument of `xs` matches the one of `ys` at its position,
    /// in order, stopping at the first that does not.
    fn owner_args_match(
        &self,
        xs: &Vec<Ty>,
        ys: &Vec<Ty>,
        type_params: &[String],
        mapping: &mut NameMap<Ty>,
    ) -> (b: bool)
        requires
            xs@.len() == ys@.len(),
        ensures
            ({
                let (ok, m) = owner_match_args(
                    self.substitution@,
                    views(type_params@),
                    mapping_views(old(mapping)@),
                    tys_view(xs@),
                    tys_view(ys@),
                    0,
                );
                &&& b == ok
                &&& mapping_views(final(mapping)@) == m
            }),
        decreases xs@, 0nat,
    {
        proof {
            lemma_tys_view(xs@);
            lemma_tys_view(ys@);
        }
        let ghost s = self.substitution@;
        let ghost tps = views(type_params@);
        let ghost xv = tys_view(xs@);
        let ghost yv = tys_view(ys@);
        let ghost target = owner_match_args(s, tps, mapping_views(mapping@), xv, yv, 0);
        let mut i: usize = 0;
        while i < xs.len()
            invariant
                i <= xs@.len(),
                xs@.len() == ys@.len(),
                xv.len() == xs@.len(),
                yv.len() == ys@.len(),
                forall|k: int| 0 <= k < xs@.len() ==> #[trigger] xv[k] == ty_view(xs@[k]),
                forall|k: int| 0 <= k < ys@.len() ==> #[trigger] yv[k] == ty_view(ys@[k]),
                s == self.substitution@,
                tps == views(type_params@),
                target == owner_match_args(s, tps, mapping_views(mapping@), xv, yv, i as nat),
                target == owner_match_args(s, tps, mapping_views(old(mapping)@), xv, yv, 0),
                xv == tys_view(xs@),
                yv == tys_view(ys@),
            decreases xs.len() - i,
        {
            let ghost m0 = mapping_views(mapping@);
            let ok = self.method_owner_matches(&xs[i], &ys[i], type_params, mapping);
            assert(owner_match(s, tps, m0, xv[i as int], yv[i as int]) == (ok, mapping_views(mapping@)));
            if !ok {
                assert(owner_match_args(s, tps, m0, xv, yv, i as nat) == (false, mapping_views(mapping@)));
                return false;
            }
            i = i + 1;
        }
        true
    }
}

// ---------------------------------------------------------------------------
// Method declarations as values
// ---------------------------------------------------------------------------

/// What a method declaration says.
pub struct MethodV {
    pub owner: TyV,
    pub trait_name: Option<Seq<char>>,
    pub type_params: Seq<Seq<char>>,
    pub bounds: Seq<(Seq<char>, Seq<char>)>,
    pub params: Seq<TyV>,
    pub ret: TyV,
    pub effects: Set<Seq<char>>,
    pub has_receiver: bool,
}

/// The text of each (type parameter, bound) pair.
pub open spec fn bound_views(bs: Seq<(String, String)>) -> Seq<(Seq<char>, Seq<char>)> {
    bs.map_values(|b: (String, String)| (b.0@, b.1@))
}

/// What a method declaration says.
pub open spec fn method_view(m: MethodInfo) -> MethodV {
    MethodV {
        owner: ty_view(m.owner),
        trait_name: match m.trait_name {
            Some(t) => Some(t@),
            None => None,
        },
        type_params: views(m.type_params@),
        bounds: bound_views(m.generic_bounds@),
        params: tys_view(m.params@),
        ret: ty_view(m.return_type),
        effects: m.required_effects@,
        has_receiver: m.has_receiver,
    }
}

/// A method signature after instantiation.
pub struct InstV {
    pub params: Seq<TyV>,
    pub ret: TyV,
    pub effects: Set<Seq<char>>,
    pub bounds: Seq<(Seq<char>, Seq<char>)>,
    pub mapping: Map<Seq<char>, TyV>,
}

/// What an instantiated method signature says.
pub open spec fn instantiated_view(r: InstantiatedMethod) -> InstV {
    InstV {
        params: tys_view(r.params@),
        ret: ty_view(r.return_type),
        effects: r.required_effects@,
        bounds: bound_views(r.generic_bounds@),
        mapping: mapping_views(r.type_mapping@),
    }
}

/// The mapping after each type parameter of `ps` not yet mapped gets a
/// fresh variable, in order from counter `v`; and the counter after.
pub open spec fn fill_params(m: Map<Seq<char>, TyV>, ps: Seq<Seq<char>>, v: u32) -> (
    Map<Seq<char>, TyV>,
    u32,
)
    decreases ps.len(),
{
    if ps.len() == 0 {
        (m, v)
    } else {
        let (m1, v1) = fill_params(m, ps.drop_last(), v);
        if m1.contains_key(ps.last()) {
            (m1, v1)
        } else {
            (m1.insert(ps.last(), TyV::Var(v1)), next_id(v1))
        }
    }
}

/// Instantiating method `mv` with the mapping `m`, completed by fresh
/// variables from counter `v`: the signature and the counter after.
pub open spec fn instantiate_spec(mv: MethodV, m: Map<Seq<char>, TyV>, v: u32) -> (InstV, u32) {
    let (m1, v1) = fill_params(m, mv.type_params, v);
    (
        InstV {
            params: inst_list(m1, mv.params),
            ret: inst_view(m1, mv.ret),
            effects: mv.effects,
            bounds: mv.bounds,
            mapping: m1,
        },
        v1,
    )
}

// ---------------------------------------------------------------------------
// Choosing among candidates
// ---------------------------------------------------------------------------

/// The position of the first candidate from `i` on that is no trait
/// method, or -1.
pub open spec fn first_inherent(cs: Seq<(MethodV, Map<Seq<char>, TyV>)>, i: nat) -> int
    decreases cs.len() - i,
{
    if i >= cs.len() {
        -1
    } else if cs[i as int].0.trait_name is None {
        i as int
    } else {
        first_inherent(cs, i + 1)
    }
}

/// The candidate chosen: the first inherent one if there is one, else the
/// first; -1 when there is none.
pub open spec fn chosen_index(cs: Seq<(MethodV, Map<Seq<char>, TyV>)>) -> int {
    if first_inherent(cs, 0) >= 0 {
        first_inherent(cs, 0)
    } else if cs.len() > 0 {
        0
    } else {
        -1
    }
}

/// More than one candidate remains once trait methods give way to
/// inherent ones.
pub open spec fn ambiguous(cs: Seq<(MethodV, Map<Seq<char>, TyV>)>) -> bool {
    if first_inherent(cs, 0) >= 0 {
        exists|a: int, b: int|
            0 <= a < b < cs.len() && (#[trigger] cs[a]).0.trait_name is None && (
            #[trigger] cs[b]).0.trait_name is None
    } else {
        cs.len() >= 2
    }
}

/// The message for an ambiguous method call.
pub open spec fn ambiguity_message(name: Seq<char>) -> Seq<char> {
    "method call `"@ + name + "` is ambiguous for the receiver type"@
}

/// Choosing among the candidates `cs` for method `name`, with counter `v`:
/// the instantiated signature of the chosen one, if any, the counter
/// after, and the diagnostics.
pub open spec fn select_spec(cs: Seq<(MethodV, Map<Seq<char>, TyV>)>, v: u32, name: Seq<char>) -> (
    Option<InstV>,
    u32,
    Diags,
) {
    let k = chosen_index(cs);
    if k < 0 {
        (None, v, Seq::empty())
    } else {
        let d = if ambiguous(cs) {
            seq![(ErrorCode::E0014, ambiguity_message(name))]
        } else {
            Seq::empty()
        };
        let (iv, v1) = instantiate_spec(cs[k].0, cs[k].1, v);
        (Some(iv), v1, d)
    }
}

/// The candidates as values.
pub open spec fn candidate_views(cs: Seq<(MethodInfo, NameMap<Ty>)>) -> Seq<(MethodV, Map<Seq<char>, TyV>)> {
    cs.map_values(|c: (MethodInfo, NameMap<Ty>)| (method_view(c.0), mapping_views(c.1@)))
}

/// The declarations of method `name`.
pub open spec fn methods_of(reg: crate::env::TypeRegistry, name: Seq<char>) -> Seq<MethodV> {
    if reg.methods@.contains_key(name) {
        reg.methods@[name]@.map_values(|m: MethodInfo| method_view(m))
    } else {
        Seq::empty()
    }
}

/// The receiver methods among `ms` whose owner matches `recv`, each with
/// the mapping the match made, in order.
pub open spec fn receiver_candidates(s: Map<u32, TyV>, ms: Seq<MethodV>, recv: TyV) -> Seq<
    (MethodV, Map<Seq<char>, TyV>),
>
    decreases ms.len(),
{
    if ms.len() == 0 {
        Seq::empty()
    } else {
        let prev = receiver_candidates(s, ms.drop_last(), recv);
        let m = ms.last();
        let (ok, mp) = owner_match(s, m.type_params, Map::empty(), m.owner, recv);
        if m.has_receiver && ok {
            prev.push((m, mp))
        } else {
            prev
        }
    }
}

/// The methods among `ms` without a receiver whose owner is implemented
/// under the name `owner`, in order.
pub open spec fn static_candidates(ms: Seq<MethodV>, owner: Seq<char>) -> Seq<
    (MethodV, Map<Seq<char>, TyV>),
>
    decreases ms.len(),
{
    if ms.len() == 0 {
        Seq::empty()
    } else {
        let prev = static_candidates(ms.drop_last(), owner);
        let m = ms.last();
        if !m.has_receiver && targets(m.owner).contains(owner) {
            prev.push((m, Map::empty()))
        } else {
            prev
        }
    }
}

/// A copy of a list of (type parameter, bound) pairs.
pub(crate) fn clone_bounds(bs: &Vec<(String, String)>) -> (r: Vec<(String, String)>)
    ensures
        bound_views(r@) == bound_views(bs@),
{
    let mut r: Vec<(String, String)> = Vec::new();
    let mut i: usize = 0;
    while i < bs.len()
        invariant
            i <= bs@.len(),
            r@.len() == i,
            forall|k: int| 0 <= k < i ==> (#[trigger] r@[k]).0@ == bs@[k].0@ && r@[k].1@ == bs@[k].1@,
        decreases bs.len() - i,
    {
        let b = &bs[i];
        r.push((b.0.clone(), b.1.clone()));
        i = i + 1;
    }
    assert(bound_views(r@) =~= bound_views(bs@));
    r
}

/// A copy of a method declaration.
fn clone_method(m: &MethodInfo) -> (r: MethodInfo)
    ensures
        method_view(r) == method_view(*m),
{
    let bounds = clone_bounds(&m.generic_bounds);
    let trait_name = match &m.trait_name {
        Some(t) => Some(t.clone()),
        None => None,
    };
    MethodInfo {
        owner: clone_ty(&m.owner),
        trait_name,
        type_params: clone_names(m.type_params.as_slice()),
        generic_bounds: bounds,
        params: clone_tys(&m.params),
        return_type: clone_ty(&m.return_type),
        required_effects: m.required_effects.clone(),
        has_receiver: m.has_receiver,
    }
}

/// Copies of the declarations of a method.
fn clone_methods(ms: &Vec<MethodInfo>) -> (r: Vec<MethodInfo>)
    ensures
        r@.map_values(|m: MethodInfo| method_view(m)) == ms@.map_values(|m: MethodInfo| method_view(m)),
{
    let mut r: Vec<MethodInfo> = Vec::new();
    let mut i: usize = 0;
    while i < ms.len()
        invariant
            i <= ms@.len(),
            r@.len() == i,
            forall|k: int| 0 <= k < i ==> method_view(#[trigger] r@[k]) == method_view(ms@[k]),
        decreases ms.len() - i,
    {
        r.push(clone_method(&ms[i]));
        i = i + 1;
    }
    assert(r@.map_values(|m: MethodInfo| method_view(m)) =~= ms@.map_values(|m: MethodInfo| method_view(m)));
    r
}

impl Checker {
    /// A method's signature with its type parameters instantiated: each
    /// not in `mapping` gets a fresh variable.
    pub fn instantiate_method(&mut self, method: &MethodInfo, mapping: NameMap<Ty>) -> (r: InstantiatedMethod)
        ensures
            ({
                let (iv, v) = instantiate_spec(method_view(*method), mapping_views(mapping@), old(self).next_var());
                &&& instantiated_view(r) == iv
                &&& final(self).next_var() == v
            }),
            final(self).errors == old(self).errors,
            frame(*old(self), *final(self)),
    {
        let mut mapping = mapping;
        let ghost m0 = mapping_views(mapping@);
        let ghost v0 = self.next_var();
        let ghost ps = views(method.type_params@);
        let mut i: usize = 0;
        assert(ps.take(0) =~= Seq::<Seq<char>>::empty());
        while i < method.type_params.len()
            invariant
                i <= method.type_params@.len(),
                ps == views(method.type_params@),
                frame(*old(self), *self),
                self.errors == old(self).errors,
                (mapping_views(mapping@), self.next_var()) == fill_params(m0, ps.take(i as int), v0),
            decreases method.type_params.len() - i,
        {
            let p = &method.type_params[i];
            assert(ps.take(i + 1).drop_last() =~= ps.take(i as int));
            assert(ps.take(i + 1).last() == p@);
            if !mapping.contains_key(p.as_str()) {
                let v = self.fresh_var();
                let ghost before = mapping@;
                mapping.insert(p.clone(), v);
                assert(mapping_views(mapping@) =~= mapping_views(before).insert(p@, ty_view(v)));
            }
            i = i + 1;
        }
        assert(ps.take(method.type_params.len() as int) =~= ps);
        let params = self.instantiate_tys(method.params.as_slice(), &mapping);
        let return_type = self.instantiate_ty(&method.return_type, &mapping);
        let bounds = clone_bounds(&method.generic_bounds);
        InstantiatedMethod {
            params,
            return_type,
            required_effects: method.required_effects.clone(),
            generic_bounds: bounds,
            type_mapping: mapping,
        }
    }

    /// Chooses among the candidates for method `method_name`: trait methods
    /// give way to inherent ones; more than one left is reported as
    /// ambiguous; the first left is instantiated.
    pub fn select_method_candidate(
        &mut self,
        method_name: &str,
        candidates: Vec<(MethodInfo, NameMap<Ty>)>,
    ) -> (r: Option<InstantiatedMethod>)
        ensures
            ({
                let (o, v, d) = select_spec(candidate_views(candidates@), old(self).next_var(), method_name@);
                &&& match r {
                    Some(x) => o == Some(instantiated_view(x)),
                    None => o is None,
                }
                &&& final(self).next_var() == v
                &&& diags(final(self).errors@) == diags(old(self).errors@) + d
            }),
            frame(*old(self), *final(self)),
    {
        let ghost cs = candidate_views(candidates@);
        let n = candidates.len();
        // the first inherent candidate, and whether there is a second
        let mut first: Option<usize> = None;
        let mut second = false;
        let mut i: usize = 0;
        while i < n
            invariant
                n == candidates@.len(),
                cs == candidate_views(candidates@),
                cs.len() == n,
                i <= n,
                first_inherent(cs, 0) == (match first {
                    Some(f) => f as int,
                    None => first_inherent(cs, i as nat),
                }),
                first matches Some(f) ==> f < i && cs[f as int].0.trait_name is None,
                second == (exists|a: int, b: int|
                    0 <= a < b < i && (#[trigger] cs[a]).0.trait_name is None && (#[trigger] cs[b]).0.trait_name
                        is None),
                first is None ==> forall|a: int| 0 <= a < i ==> (#[trigger] cs[a]).0.trait_name is Some,
            decreases n - i,
        {
            assert(cs[i as int].0.trait_name is None <==> candidates@[i as int].0.trait_name is None);
            if candidates[i].0.trait_name.is_none() {
                match first {
                    Some(f) => {
                        assert(cs[f as int].0.trait_name is None);
                        second = true;
                    },
                    None => {
                        first = Some(i);
                    },
                }
            }
            proof {
                if second {
                    if !(exists|a: int, b: int|
                        0 <= a < b < i && (#[trigger] cs[a]).0.trait_name is None && (#[trigger] cs[b]).0.trait_name
                            is None) {
                        let f = first->0 as int;
                        assert(0 <= f < i && cs[f].0.trait_name is None && cs[i as int].0.trait_name is None);
                    }
                }
            }
            i = i + 1;
        }
        let (k, ambiguous_now) = match first {
            Some(f) => (f, second),
            None => {
                if n == 0 {
                    assert(diags(self.errors@) =~= diags(old(self).errors@) + Seq::empty());
                    return None;
                }
                (0, n >= 2)
            },
        };
        if ambiguous_now {
            let mut message = string_of("method call `");
            message.append(method_name);
            message.append("` is ambiguous for the receiver type");
            self.err(ErrorCode::E0014, message);
        } else {
            assert(diags(self.errors@) =~= diags(old(self).errors@) + Seq::empty());
        }
        let mut candidates = candidates;
        let chosen = candidates.remove(k);
        assert(cs[k as int] == (method_view(chosen.0), mapping_views(chosen.1@)));
        Some(self.instantiate_method(&chosen.0, chosen.1))
    }

    /// The receiver method `method_name` for a value of type `receiver_ty`:
    /// among its declarations with a receiver, those whose owner matches
    /// the type, chosen as `select_method_candidate` does.
    pub fn lookup_receiver_method(&mut self, receiver_ty: &Ty, method_name: &str) -> (r: Option<
        InstantiatedMethod,
    >)
        ensures
            ({
                let cs = receiver_candidates(
                    old(self).substitution@,
                    methods_of(old(self).registry, method_name@),
                    ty_view(*receiver_ty),
                );
                let (o, v, d) = select_spec(cs, old(self).next_var(), method_name@);
                &&& match r {
                    Some(x) => o == Some(instantiated_view(x)),
                    None => o is None,
                }
                &&& final(self).next_var() == v
                &&& diags(final(self).errors@) == diags(old(self).errors@) + d
            }),
            frame(*old(self), *final(self)),
    {
        let candidates = match self.registry.methods.get(method_name) {
            Some(ms) => clone_methods(ms),
            None => {
                assert(diags(self.errors@) =~= diags(old(self).errors@) + Seq::empty());
                return None;
            },
        };
        let ghost ms = methods_of(self.registry, method_name@);
        assert(ms == candidates@.map_values(|m: MethodInfo| method_view(m)));
        let mut matches: Vec<(MethodInfo, NameMap<Ty>)> = Vec::new();
        let mut i: usize = 0;
        assert(ms.take(0) =~= Seq::<MethodV>::empty());
        assert(candidate_views(matches@) =~= Seq::<(MethodV, Map<Seq<char>, TyV>)>::empty());
        while i < candidates.len()
            invariant
                i <= candidates@.len(),
                ms == candidates@.map_values(|m: MethodInfo| method_view(m)),
                self == old(self),
                candidate_views(matches@) == receiver_candidates(
                    self.substitution@,
                    ms.take(i as int),
                    ty_view(*receiver_ty),
                ),
            decreases candidates.len() - i,
        {
            let c = &candidates[i];
            assert(ms.take(i + 1).drop_last() =~= ms.take(i as int));
            assert(ms.take(i + 1).last() == method_view(*c));
            if c.has_receiver {
                let mut mapping: NameMap<Ty> = NameMap::new();
                assert(mapping_views(mapping@) =~= Map::<Seq<char>, TyV>::empty());
                if self.method_owner_matches(&c.owner, receiver_ty, c.type_params.as_slice(), &mut mapping) {
                    let ghost prev = matches@;
                    matches.push((clone_method(c), mapping));
                    assert(candidate_views(matches@) =~= candidate_views(prev).push(
                        (method_view(*c), mapping_views(mapping@)),
                    ));
                }
            }
            i = i + 1;
        }
        assert(ms.take(candidates.len() as int) =~= ms);
        self.select_method_candidate(method_name, matches)
    }

    /// The static method `method_name` of the type named `owner_name`:
    /// among its declarations without a receiver, those whose owner is
    /// implemented under that name, chosen as `select_method_candidate`
    /// does.
    pub fn lookup_static_method(&mut self, owner_name: &str, method_name: &str) -> (r: Option<
        InstantiatedMethod,
    >)
        ensures
            ({
                let cs = static_candidates(methods_of(old(self).registry, method_name@), owner_name@);
                let (o, v, d) = select_spec(cs, old(self).next_var(), method_name@);
                &&& match r {
                    Some(x) => o == Some(instantiated_view(x)),
                    None => o is None,
                }
                &&& final(self).next_var() == v
                &&& diags(final(self).errors@) == diags(old(self).errors@) + d
            }),
            frame(*old(self), *final(self)),
    {
        let candidates = match self.registry.methods.get(method_name) {
            Some(ms) => clone_methods(ms),
            None => {
                assert(diags(self.errors@) =~= diags(old(self).errors@) + Seq::empty());
                return None;
            },
        };
        let ghost ms = methods_of(self.registry, method_name@);
        assert(ms == candidates@.map_values(|m: MethodInfo| method_view(m)));
        let mut matches: Vec<(MethodInfo, NameMap<Ty>)> = Vec::new();
        let mut i: usize = 0;
        assert(ms.take(0) =~= Seq::<MethodV>::empty());
        assert(candidate_views(matches@) =~= Seq::<(MethodV, Map<Seq<char>, TyV>)>::empty());
        while i < candidates.len()
            invariant
                i <= candidates@.len(),
                ms == candidates@.map_values(|m: MethodInfo| method_view(m)),
                self == old(self),
                candidate_views(matches@) == static_candidates(ms.take(i as int), owner_name@),
            decreases candidates.len() - i,
        {
            let c = &candidates[i];
            assert(ms.take(i + 1).drop_last() =~= ms.take(i as int));
            assert(ms.take(i + 1).last() == method_view(*c));
            if !c.has_receiver {
                let names = self.bound_target_names(&c.owner);
                if contains_name(names.as_slice(), owner_name) {
                    let mapping: NameMap<Ty> = NameMap::new();
                    assert(mapping_views(mapping@) =~= Map::<Seq<char>, TyV>::empty());
                    let ghost prev = matches@;
                    matches.push((clone_method(c), mapping));
                    assert(candidate_views(matches@) =~= candidate_views(prev).push(
                        (method_view(*c), Map::empty()),
                    ));
                }
            }
            i = i + 1;
        }
        assert(ms.take(candidates.len() as int) =~= ms);
        self.select_method_candidate(method_name, matches)
    }
}

} // verus!
