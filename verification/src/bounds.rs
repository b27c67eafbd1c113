//! Generic bounds: checking that instantiated type parameters implement
//! their traits, and finding the methods a bound provides.

use vstd::prelude::*;
use crate::check::{
    Checker, Diags, apply_view, frame, has_var, inst_list, inst_view, mapping_views, sig_map, targets,
};
use crate::effect_set::EffectSet;
use crate::env::{InstantiatedMethod, MethodInfo, TypeRegistry};
use crate::error::{ErrorCode, diags};
use crate::method::{MethodV, bound_views, candidate_views, clone_bounds, method_view, select_spec};
use crate::name_map::NameMap;
use crate::names::{clone_names, views};
use crate::pattern::{Inference, inference, report, take_vars};
use crate::text::{str_eq, string_of};
use crate::types::{Ty, TyV, clone_ty, lemma_text_view, ty_view, tys_view, tyv_text};

verus! {

// ---------------------------------------------------------------------------
// Checking bounds
// ---------------------------------------------------------------------------

/// Some name under which `t` is implemented has an implementation of
/// trait `bound`.
pub open spec fn satisfies(reg: TypeRegistry, bound: Seq<char>, t: TyV) -> bool {
    reg.impls@.contains_key(bound) && exists|i: int|
        0 <= i < targets(t).len() && reg.impls@[bound]@.contains_key(#[trigger] targets(t)[i])
}

/// The diagnostics for one bound `tv: b` in `ctx`: an unknown trait; a
/// parameter whose instantiation still holds variables; or an
/// instantiation that does not implement the trait. A parameter the
/// mapping does not give is skipped.
pub open spec fn bound_diags(
    reg: TypeRegistry,
    s: Map<u32, TyV>,
    ctx: Seq<char>,
    tv: Seq<char>,
    b: Seq<char>,
    m: Map<Seq<char>, TyV>,
) -> Diags {
    if !reg.interfaces@.contains_key(b) {
        seq![(ErrorCode::E0403, "unknown trait bound `"@ + b + "` in generic bounds of `"@ + ctx + "`"@)]
    } else if !m.contains_key(tv) {
        Seq::empty()
    } else {
        let r = apply_view(s, s.dom().len(), m[tv]);
        if has_var(r) {
            seq![
                (ErrorCode::E0404, "cannot infer type parameter `"@ + tv + "` for generic bound `"@ + tv
                    + ": "@ + b + "` in `"@ + ctx + "`"@),
            ]
        } else if !satisfies(reg, b, r) {
            seq![
                (ErrorCode::E0403, "type `"@ + tyv_text(r) + "` does not satisfy generic bound `"@ + tv
                    + ": "@ + b + "` in `"@ + ctx + "`"@),
            ]
        } else {
            Seq::empty()
        }
    }
}

/// The diagnostics for a list of bounds, in order.
pub open spec fn bounds_diags(
    reg: TypeRegistry,
    s: Map<u32, TyV>,
    ctx: Seq<char>,
    cs: Seq<(Seq<char>, Seq<char>)>,
    m: Map<Seq<char>, TyV>,
) -> Diags
    decreases cs.len(),
{
    if cs.len() == 0 {
        Seq::empty()
    } else {
        bounds_diags(reg, s, ctx, cs.drop_last(), m) + bound_diags(reg, s, ctx, cs.last().0, cs.last().1, m)
    }
}

impl Checker {
    /// Whether `ty` implements trait `bound` under one of the names it is
    /// implemented under.
    pub fn satisfies_trait_bound(&self, bound: &str, ty: &Ty) -> (b: bool)
        ensures
            b == satisfies(self.registry, bound@, ty_view(*ty)),
    {
        let names = self.bound_target_names(ty);
        let impls = match self.registry.impls.get(bound) {
            Some(m) => m,
            None => return false,
        };
        let mut i: usize = 0;
        while i < names.len()
            invariant
                i <= names@.len(),
                views(names@) == targets(ty_view(*ty)),
                self.registry.impls@.contains_key(bound@),
                *impls == self.registry.impls@[bound@],
                forall|k: int| 0 <= k < i ==> !impls@.contains_key(#[trigger] targets(ty_view(*ty))[k]),
            decreases names.len() - i,
        {
            assert(targets(ty_view(*ty))[i as int] == names@[i as int]@);
            if impls.contains_key(names[i].as_str()) {
                return true;
            }
            i = i + 1;
        }
        false
    }

    /// Checks each bound `type_var: bound` of `constraints` (in `context`)
    /// against the instantiation `type_mapping` gives its parameter.
    pub fn check_instantiated_bounds(
        &mut self,
        context: &str,
        constraints: &Vec<(String, String)>,
        type_mapping: &NameMap<Ty>,
    )
        ensures
            diags(final(self).errors@) == diags(old(self).errors@) + bounds_diags(
                old(self).registry,
                old(self).substitution@,
                context@,
                bound_views(constraints@),
                mapping_views(type_mapping@),
            ),
            frame(*old(self), *final(self)),
            final(self).next_var() == old(self).next_var(),
    {
        let ghost reg = self.registry;
        let ghost s = self.substitution@;
        let ghost m = mapping_views(type_mapping@);
        let ghost cs = bound_views(constraints@);
        let ghost d0 = diags(self.errors@);
        let mut i: usize = 0;
        assert(cs.take(0) =~= Seq::<(Seq<char>, Seq<char>)>::empty());
        assert(d0 =~= d0 + bounds_diags(reg, s, context@, cs.take(0), m));
        while i < constraints.len()
            invariant
                i <= constraints@.len(),
                reg == old(self).registry,
                s == old(self).substitution@,
                d0 == diags(old(self).errors@),
                m == mapping_views(type_mapping@),
                cs == bound_views(constraints@),
                frame(*old(self), *self),
                self.next_var() == old(self).next_var(),
                diags(self.errors@) == d0 + bounds_diags(reg, s, context@, cs.take(i as int), m),
            decreases constraints.len() - i,
        {
            let type_var = &constraints[i].0;
            let bound = &constraints[i].1;
            assert(cs.take(i + 1).drop_last() =~= cs.take(i as int));
            assert(cs.take(i + 1).last() == (type_var@, bound@));
            let ghost before = diags(self.errors@);
            if !self.registry.interfaces.contains_key(bound.as_str()) {
                let mut message = string_of("unknown trait bound `");
                message.append(bound.as_str());
                message.append("` in generic bounds of `");
                message.append(context);
                message.append("`");
                self.err(ErrorCode::E0403, message);
            } else {
                match type_mapping.get(type_var.as_str()) {
                    None => {},
                    Some(instantiated) => {
                        let resolved = self.apply_subst(instantiated);
                        if self.has_unresolved_type_var(&resolved) {
                            let mut message = string_of("cannot infer type parameter `");
                            message.append(type_var.as_str());
                            message.append("` for generic bound `");
                            message.append(type_var.as_str());
                            message.append(": ");
                            message.append(bound.as_str());
                            message.append("` in `");
                            message.append(context);
                            message.append("`");
                            self.err(ErrorCode::E0404, message);
                        } else if !self.satisfies_trait_bound(bound.as_str(), &resolved) {
                            let mut message = string_of("type `");
                            let text = resolved.to_string();
                            proof { lemma_text_view(resolved); }
                            message.append(text.as_str());
                            message.append("` does not satisfy generic bound `");
                            message.append(type_var.as_str());
                            message.append(": ");
                            message.append(bound.as_str());
                            message.append("` in `");
                            message.append(context);
                            message.append("`");
                            self.err(ErrorCode::E0403, message);
                        }
                    },
                }
            }
            assert(diags(self.errors@) =~= before + bound_diags(reg, s, context@, type_var@, bound@, m));
            i = i + 1;
        }
        assert(cs.take(constraints.len() as int) =~= cs);
    }

    /// Checks the generic bounds of function `fn_name` against the
    /// instantiation `type_mapping` gives its type parameters.
    pub fn check_generic_bounds(&mut self, fn_name: &str, type_mapping: &NameMap<Ty>)
        ensures
            diags(final(self).errors@) == diags(old(self).errors@) + if old(
                self,
            ).registry.fn_generic_bounds@.contains_key(fn_name@) {
                bounds_diags(
                    old(self).registry,
                    old(self).substitution@,
                    fn_name@,
                    bound_views(old(self).registry.fn_generic_bounds@[fn_name@]@),
                    mapping_views(type_mapping@),
                )
            } else {
                Seq::empty()
            },
            frame(*old(self), *final(self)),
            final(self).next_var() == old(self).next_var(),
    {
        let constraints = match self.registry.fn_generic_bounds.get(fn_name) {
            Some(cs) => clone_bounds(cs),
            None => {
                assert(diags(self.errors@) =~= diags(old(self).errors@) + Seq::empty());
                return;
            },
        };
        self.check_instantiated_bounds(fn_name, &constraints, type_mapping);
    }
}

// ---------------------------------------------------------------------------
// Methods provided by bounds
// ---------------------------------------------------------------------------

/// The parameter and result types of the first method named `n` in a
/// trait's method list, from position `j` on.
pub open spec fn trait_method_from(ms: Seq<(String, Vec<Ty>, Ty)>, n: Seq<char>, j: nat) -> Option<
    (Seq<TyV>, TyV),
>
    decreases ms.len() - j,
{
    if j >= ms.len() {
        None
    } else if ms[j as int].0@ == n {
        Some((tys_view(ms[j as int].1@), ty_view(ms[j as int].2)))
    } else {
        trait_method_from(ms, n, j + 1)
    }
}

/// The method `n` that the bound trait `tr` provides to a receiver of type
/// `recv`: a trait without type parameters with such a method gives it,
/// with `Self` standing for the receiver type.
pub open spec fn bound_candidate(reg: TypeRegistry, tr: Seq<char>, n: Seq<char>, recv: TyV) -> Option<MethodV> {
    if !reg.interfaces@.contains_key(tr) || reg.interfaces@[tr].0@.len() > 0 {
        None
    } else {
        match trait_method_from(reg.interfaces@[tr].1@, n, 0) {
            None => None,
            Some(sig) => {
                let m = Map::<Seq<char>, TyV>::empty().insert("Self"@, recv);
                Some(
                    MethodV {
                        owner: recv,
                        trait_name: Some(tr),
                        type_params: Seq::empty(),
                        bounds: Seq::empty(),
                        params: inst_list(m, sig.0),
                        ret: inst_view(m, sig.1),
                        effects: Set::empty(),
                        has_receiver: true,
                    },
                )
            },
        }
    }
}

/// The candidates the bounds `bs` on the type parameter `var` provide for
/// method `n`, in order.
pub open spec fn bound_candidates(
    reg: TypeRegistry,
    bs: Seq<(Seq<char>, Seq<char>)>,
    var: Seq<char>,
    n: Seq<char>,
    recv: TyV,
) -> Seq<(MethodV, Map<Seq<char>, TyV>)>
    decreases bs.len(),
{
    if bs.len() == 0 {
        Seq::empty()
    } else {
        let prev = bound_candidates(reg, bs.drop_last(), var, n, recv);
        let c = bound_candidate(reg, bs.last().1, n, recv);
        if bs.last().0 == var && c is Some {
            prev.push((c->0, Map::empty()))
        } else {
            prev
        }
    }
}

/// The generic bounds of the function being checked.
pub open spec fn current_bounds(c: Checker) -> Seq<(Seq<char>, Seq<char>)> {
    if c.registry.fn_generic_bounds@.contains_key(c.current_function@) {
        bound_views(c.registry.fn_generic_bounds@[c.current_function@]@)
    } else {
        Seq::empty()
    }
}

impl Checker {
    /// The method `method_name` that trait `trait_name` provides to a
    /// receiver of type `receiver_ty`, as `bound_candidate` says.
    fn bound_method(&self, trait_name: &str, method_name: &str, receiver_ty: &Ty) -> (r: Option<MethodInfo>)
        ensures
            match r {
                Some(m) => bound_candidate(self.registry, trait_name@, method_name@, ty_view(*receiver_ty))
                    == Some(method_view(m)),
                None => bound_candidate(self.registry, trait_name@, method_name@, ty_view(*receiver_ty)) is None,
            },
    {
        let entry = match self.registry.interfaces.get(trait_name) {
            Some(e) => e,
            None => return None,
        };
        if entry.0.len() > 0 {
            return None;
        }
        let ms = &entry.1;
        let mut j: usize = 0;
        while j < ms.len()
            invariant
                j <= ms@.len(),
                self.registry.interfaces@.contains_key(trait_name@),
                *ms == self.registry.interfaces@[trait_name@].1,
                self.registry.interfaces@[trait_name@].0@.len() == 0,
                trait_method_from(ms@, method_name@, 0) == trait_method_from(ms@, method_name@, j as nat),
            decreases ms.len() - j,
        {
            if str_eq(ms[j].0.as_str(), method_name) {
                let mut mapping: NameMap<Ty> = NameMap::new();
                mapping.insert(string_of("Self"), clone_ty(receiver_ty));
                assert(mapping_views(mapping@) =~= Map::<Seq<char>, TyV>::empty().insert("Self"@, ty_view(*receiver_ty)));
                let params = self.instantiate_tys(ms[j].1.as_slice(), &mapping);
                let return_type = self.instantiate_ty(&ms[j].2, &mapping);
                let m = MethodInfo {
                    owner: clone_ty(receiver_ty),
                    trait_name: Some(string_of(trait_name)),
                    type_params: Vec::new(),
                    generic_bounds: Vec::new(),
                    params,
                    return_type,
                    required_effects: EffectSet::new(),
                    has_receiver: true,
                };
                assert(views(m.type_params@) =~= Seq::<Seq<char>>::empty());
                assert(bound_views(m.generic_bounds@) =~= Seq::<(Seq<char>, Seq<char>)>::empty());
                assert(m.required_effects@ =~= Set::<Seq<char>>::empty());
                assert(trait_method_from(ms@, method_name@, j as nat) == Some((tys_view(ms@[j as int].1@), ty_view(ms@[j as int].2))));
                return Some(m);
            }
            j = j + 1;
        }
        None
    }

    /// The method `method_name` for a receiver whose type is a type
    /// parameter of the function being checked: the candidates its bounds
    /// provide, chosen as `select_method_candidate` does; none for a
    /// receiver type that resolves to no named type.
    pub fn lookup_generic_bound_method(&mut self, receiver_ty: &Ty, method_name: &str) -> (r: Option<
        InstantiatedMethod,
    >)
        ensures
            ({
                let a = apply_view(old(self).substitution@, old(self).substitution@.dom().len(), ty_view(*receiver_ty));
                if a is Named {
                    let cs = bound_candidates(
                        old(self).registry,
                        current_bounds(*old(self)),
                        a->Named_0,
                        method_name@,
                        ty_view(*receiver_ty),
                    );
                    let (o, v, d) = select_spec(cs, old(self).next_var(), method_name@);
                    &&& match r {
                        Some(x) => o == Some(crate::method::instantiated_view(x)),
                        None => o is None,
                    }
                    &&& final(self).next_var() == v
                    &&& diags(final(self).errors@) == diags(old(self).errors@) + d
                } else {
                    &&& r is None
                    &&& final(self).next_var() == old(self).next_var()
                    &&& final(self).errors == old(self).errors
                }
            }),
            frame(*old(self), *final(self)),
    {
        let applied = self.apply_subst(receiver_ty);
        let type_var = match &applied {
            Ty::Named(n) => n,
            _ => return None,
        };
        let bounds = match self.registry.fn_generic_bounds.get(self.current_function.as_str()) {
            Some(b) => clone_bounds(b),
            None => Vec::new(),
        };
        let ghost bs = bound_views(bounds@);
        assert(bs == current_bounds(*self));
        let mut candidates: Vec<(MethodInfo, NameMap<Ty>)> = Vec::new();
        let mut i: usize = 0;
        assert(bs.take(0) =~= Seq::<(Seq<char>, Seq<char>)>::empty());
        assert(candidate_views(candidates@) =~= Seq::<(MethodV, Map<Seq<char>, TyV>)>::empty());
        while i < bounds.len()
            invariant
                i <= bounds@.len(),
                bs == bound_views(bounds@),
                self == old(self),
                candidate_views(candidates@) == bound_candidates(
                    self.registry,
                    bs.take(i as int),
                    type_var@,
                    method_name@,
                    ty_view(*receiver_ty),
                ),
            decreases bounds.len() - i,
        {
            assert(bs.take(i + 1).drop_last() =~= bs.take(i as int));
            assert(bs.take(i + 1).last() == (bounds@[i as int].0@, bounds@[i as int].1@));
            if str_eq(bounds[i].0.as_str(), type_var.as_str()) {
                match self.bound_method(bounds[i].1.as_str(), method_name, receiver_ty) {
                    Some(m) => {
                        let mapping: NameMap<Ty> = NameMap::new();
                        assert(mapping_views(mapping@) =~= Map::<Seq<char>, TyV>::empty());
                        let ghost prev = candidates@;
                        let ghost mv = method_view(m);
                        candidates.push((m, mapping));
                        assert(candidate_views(candidates@) =~= candidate_views(prev).push((mv, Map::empty())));
                    },
                    None => {},
                }
            }
            i = i + 1;
        }
        assert(bs.take(bounds.len() as int) =~= bs);
        self.select_method_candidate(method_name, candidates)
    }
}

// ---------------------------------------------------------------------------
// Effect operations
// ---------------------------------------------------------------------------

/// Looking up operation `op` of effect `effect`: the state after, and the
/// operation's parameter and result types (instantiated with fresh
/// variables for the effect's type parameters), if it has one; an effect
/// without an operation protocol, or without the operation, is reported.
pub open spec fn effect_operation_spec(reg: TypeRegistry, st: Inference, effect: Seq<char>, op: Seq<char>) -> (
    Inference,
    Option<(Seq<TyV>, TyV)>,
) {
    if !reg.interfaces@.contains_key(effect) {
        (
            report(st, ErrorCode::F0002, "effect `"@ + effect + "` has no visible operation protocol"@),
            None,
        )
    } else {
        match trait_method_from(reg.interfaces@[effect].1@, op, 0) {
            None => (
                report(st, ErrorCode::F0002, "effect `"@ + effect + "` has no operation `"@ + op + "`"@),
                None,
            ),
            Some(sig) => {
                let tps = views(reg.interfaces@[effect].0@);
                if tps.len() == 0 {
                    (st, Some(sig))
                } else {
                    let m = sig_map(tps, st.v);
                    (take_vars(st, tps.len()), Some((inst_list(m, sig.0), inst_view(m, sig.1))))
                }
            },
        }
    }
}

impl Checker {
    /// The parameter and result types of operation `operation` of effect
    /// `effect`, as `effect_operation_spec` says.
    pub fn lookup_registered_effect_operation(&mut self, effect: &str, operation: &str) -> (r: Option<
        (Vec<Ty>, Ty),
    >)
        ensures
            ({
                let (st, o) = effect_operation_spec(old(self).registry, inference(*old(self)), effect@, operation@);
                &&& inference(*final(self)) == st
                &&& match r {
                    Some(p) => o == Some((tys_view(p.0@), ty_view(p.1))),
                    None => o is None,
                }
            }),
            frame(*old(self), *final(self)),
    {
        let (type_params, param_tys, ret_ty) = match self.registry.interfaces.get(effect) {
            None => {
                let mut message = string_of("effect `");
                message.append(effect);
                message.append("` has no visible operation protocol");
                self.err(ErrorCode::F0002, message);
                return None;
            },
            Some(entry) => {
                let ms = &entry.1;
                let mut j: usize = 0;
                let mut found: Option<usize> = None;
                while found.is_none() && j < ms.len()
                    invariant
                        j <= ms@.len(),
                        found is None ==> trait_method_from(ms@, operation@, 0) == trait_method_from(
                            ms@,
                            operation@,
                            j as nat,
                        ),
                        found matches Some(k) ==> k < ms@.len() && trait_method_from(ms@, operation@, 0)
                            == Some((tys_view(ms@[k as int].1@), ty_view(ms@[k as int].2))),
                    decreases ms.len() - j,
                {
                    if str_eq(ms[j].0.as_str(), operation) {
                        found = Some(j);
                    }
                    j = j + 1;
                }
                match found {
                    None => {
                        let mut message = string_of("effect `");
                        message.append(effect);
                        message.append("` has no operation `");
                        message.append(operation);
                        message.append("`");
                        self.err(ErrorCode::F0002, message);
                        return None;
                    },
                    Some(k) => {
                        assert(trait_method_from(ms@, operation@, 0) == Some(
                            (tys_view(ms@[k as int].1@), ty_view(ms@[k as int].2)),
                        ));
                        (
                            clone_names(entry.0.as_slice()),
                            crate::types::clone_tys(&ms[k].1),
                            clone_ty(&ms[k].2),
                        )
                    },
                }
            },
        };
        if type_params.len() == 0 {
            Some((param_tys, ret_ty))
        } else {
            let (params, ret, _) = self.instantiate_sig(type_params.as_slice(), param_tys.as_slice(), &ret_ty);
            Some((params, ret))
        }
    }
}

} // verus!
