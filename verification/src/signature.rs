//! Resolving the written types of a function signature, where each named
//! hole stands for one type throughout the signature.

use vstd::prelude::*;
use crate::ast::{TypeExpr, share_predicate};
use crate::check::{
    Checker, Diags, alias_views, frame, generic_alias_views, inst_alias, mapping_views, named_view,
    next_id,
};
use crate::effect_set::EffectSet;
use crate::error::diags;
use crate::name_map::NameMap;
use crate::types::{Ty, TyV, clone_ty, fields_view, ty_view, tys_view};

verus! {

/// Resolving a written signature type from counter `v`, with the types of
/// the named holes met so far in `hs`: the type, the counter after, the
/// diagnostics, and the named holes after.
///
/// As for any written type, except that a named hole met before stands for
/// the same type; met for the first time, it takes a fresh variable, which
/// it then stands for. An unnamed hole always takes a fresh variable.
pub open spec fn signature_spec(
    al: Map<Seq<char>, TyV>,
    gal: Map<Seq<char>, (Seq<Seq<char>>, TyV)>,
    v: u32,
    hs: Map<Seq<char>, TyV>,
    te: TypeExpr,
) -> (TyV, u32, Diags, Map<Seq<char>, TyV>)
    decreases te,
{
    match te {
        TypeExpr::Named(n) => (named_view(al, n@), v, Seq::empty(), hs),
        TypeExpr::Hole(None) => (TyV::Var(v), next_id(v), Seq::empty(), hs),
        TypeExpr::Hole(Some(n)) => if hs.contains_key(n@) {
            (hs[n@], v, Seq::empty(), hs)
        } else {
            (TyV::Var(v), next_id(v), Seq::empty(), hs.insert(n@, TyV::Var(v)))
        },
        TypeExpr::Generic(n, args) => {
            let (xs, v1, d1, h1) = signature_list(al, gal, v, hs, args@);
            let (t, d2) = inst_alias(gal, n@, xs);
            (t, v1, d1 + d2, h1)
        },
        TypeExpr::Tuple(ts) => if ts@.len() == 0 {
            (TyV::Unit, v, Seq::empty(), hs)
        } else {
            let (xs, v1, d1, h1) = signature_list(al, gal, v, hs, ts@);
            (TyV::Tuple(xs), v1, d1, h1)
        },
        TypeExpr::Function(ps, r, _) => {
            let (xs, v1, d1, h1) = signature_list(al, gal, v, hs, ps@);
            let (rt, v2, d2, h2) = signature_spec(al, gal, v1, h1, *r);
            (TyV::Fn(xs, Box::new(rt), Seq::empty()), v2, d1 + d2, h2)
        },
        TypeExpr::Refinement(b, var, p) => {
            let (bt, v1, d1, h1) = signature_spec(al, gal, v, hs, *b);
            (TyV::Refined(Box::new(bt), var@, *p), v1, d1, h1)
        },
        TypeExpr::Record(fs) => {
            let (xs, v1, d1, h1) = signature_fields(al, gal, v, hs, fs@);
            (TyV::Record(xs), v1, d1, h1)
        },
    }
}

pub open spec fn signature_list(
    al: Map<Seq<char>, TyV>,
    gal: Map<Seq<char>, (Seq<Seq<char>>, TyV)>,
    v: u32,
    hs: Map<Seq<char>, TyV>,
    tes: Seq<TypeExpr>,
) -> (Seq<TyV>, u32, Diags, Map<Seq<char>, TyV>)
    decreases tes,
{
    if tes.len() == 0 {
        (Seq::empty(), v, Seq::empty(), hs)
    } else {
        let (xs, v1, d1, h1) = signature_list(al, gal, v, hs, tes.drop_last());
        let (x, v2, d2, h2) = signature_spec(al, gal, v1, h1, tes.last());
        (xs.push(x), v2, d1 + d2, h2)
    }
}

pub open spec fn signature_fields(
    al: Map<Seq<char>, TyV>,
    gal: Map<Seq<char>, (Seq<Seq<char>>, TyV)>,
    v: u32,
    hs: Map<Seq<char>, TyV>,
    fs: Seq<(String, TypeExpr)>,
) -> (Seq<(Seq<char>, TyV)>, u32, Diags, Map<Seq<char>, TyV>)
    decreases fs,
{
    if fs.len() == 0 {
        (Seq::empty(), v, Seq::empty(), hs)
    } else {
        let (xs, v1, d1, h1) = signature_fields(al, gal, v, hs, fs.drop_last());
        let (x, v2, d2, h2) = signature_spec(al, gal, v1, h1, fs.last().1);
        (xs.push((fs.last().0@, x)), v2, d1 + d2, h2)
    }
}

impl Checker {
    /// Resolves a written type of a signature, each named hole standing for
    /// one type throughout: `signature_holes` holds those met so far.
    pub fn resolve_signature_type(&mut self, te: &TypeExpr, signature_holes: &mut NameMap<Ty>) -> (r: Ty)
        ensures
            ({
                let (t, v, d, h) = signature_spec(
                    alias_views(old(self).registry),
                    generic_alias_views(old(self).registry),
                    old(self).next_var(),
                    mapping_views(old(signature_holes)@),
                    *te,
                );
                &&& ty_view(r) == t
                &&& final(self).next_var() == v
                &&& diags(final(self).errors@) == diags(old(self).errors@) + d
                &&& mapping_views(final(signature_holes)@) == h
            }),
            frame(*old(self), *final(self)),
        decreases te,
    {
        let ghost al = alias_views(self.registry);
        let ghost gal = generic_alias_views(self.registry);
        let ghost h0 = mapping_views(signature_holes@);
        match te {
            TypeExpr::Hole(Some(name)) => {
                assert(diags(self.errors@) =~= diags(old(self).errors@) + Seq::empty());
                match signature_holes.get(name.as_str()) {
                    Some(t) => clone_ty(t),
                    None => {
                        let v = self.fresh_var();
                        signature_holes.insert(name.clone(), clone_ty(&v));
                        assert(mapping_views(signature_holes@) =~= h0.insert(name@, ty_view(v)));
                        v
                    },
                }
            },
            TypeExpr::Hole(None) => {
                let r = self.fresh_var();
                assert(diags(self.errors@) =~= diags(old(self).errors@) + Seq::empty());
                r
            },
            TypeExpr::Generic(name, args) => {
                let resolved = self.resolve_signature_types(args, signature_holes);
                let r = self.instantiate_generic_alias(name.as_str(), resolved);
                let ghost first = signature_list(al, gal, old(self).next_var(), h0, args@);
                assert(diags(self.errors@) =~= diags(old(self).errors@) + (first.2 + inst_alias(
                    gal,
                    name@,
                    first.0,
                ).1));
                r
            },
            TypeExpr::Tuple(types) => {
                if types.len() == 0 {
                    assert(diags(self.errors@) =~= diags(old(self).errors@) + Seq::empty());
                    Ty::Unit
                } else {
                    Ty::Tuple(self.resolve_signature_types(types, signature_holes))
                }
            },
            TypeExpr::Function(params, ret, _) => {
                let ptys = self.resolve_signature_types(params, signature_holes);
                let rt = self.resolve_signature_type(ret, signature_holes);
                let ghost first = signature_list(al, gal, old(self).next_var(), h0, params@);
                assert(diags(self.errors@) =~= diags(old(self).errors@) + (first.2 + signature_spec(
                    al,
                    gal,
                    first.1,
                    first.3,
                    **ret,
                ).2));
                Ty::Fn(ptys, Box::new(rt), EffectSet::new())
            },
            TypeExpr::Refinement(base, var_name, pred_expr) => {
                let base_ty = self.resolve_signature_type(base, signature_holes);
                Ty::Refined(Box::new(base_ty), var_name.clone(), share_predicate(pred_expr))
            },
            TypeExpr::Record(fields) => {
                let mut out: Vec<(String, Ty)> = Vec::new();
                let mut i: usize = 0;
                let ghost s0 = *old(self);
                assert(fields@.take(0) =~= Seq::<(String, TypeExpr)>::empty());
                assert(fields_view(out@) =~= Seq::<(Seq<char>, TyV)>::empty());
                assert(diags(self.errors@) =~= diags(s0.errors@) + Seq::empty());
                #[verifier::loop_isolation(false)]
                while i < fields.len()
                    invariant
                        i <= fields@.len(),
                        frame(s0, *self),
                        ({
                            let (xs, v, d, h) = signature_fields(al, gal, s0.next_var(), h0, fields@.take(i as int));
                            &&& fields_view(out@) == xs
                            &&& self.next_var() == v
                            &&& diags(self.errors@) == diags(s0.errors@) + d
                            &&& mapping_views(signature_holes@) == h
                        }),
                    decreases fields.len() - i,
                {
                    let f = &fields[i];
                    proof {
                        assert(decreases_to!(*te => fields@[i as int].1));
                    }
                    let t = self.resolve_signature_type(&f.1, signature_holes);
                    let ghost prev = out@;
                    out.push((f.0.clone(), t));
                    assert(out@.drop_last() =~= prev);
                    assert(fields@.take(i + 1).drop_last() =~= fields@.take(i as int));
                    let ghost prior = signature_fields(al, gal, s0.next_var(), h0, fields@.take(i as int));
                    let ghost step = signature_spec(al, gal, prior.1, prior.3, fields@[i as int].1);
                    assert(diags(self.errors@) =~= diags(s0.errors@) + (prior.2 + step.2));
                    i = i + 1;
                }
                assert(fields@.take(fields.len() as int) =~= fields@);
                Ty::Record(out)
            },
            TypeExpr::Named(_) => self.resolve_type(te),
        }
    }

    /// Resolves each written signature type in turn.
    fn resolve_signature_types(&mut self, tes: &Vec<TypeExpr>, signature_holes: &mut NameMap<Ty>) -> (r: Vec<
        Ty,
    >)
        ensures
            ({
                let (xs, v, d, h) = signature_list(
                    alias_views(old(self).registry),
                    generic_alias_views(old(self).registry),
                    old(self).next_var(),
                    mapping_views(old(signature_holes)@),
                    tes@,
                );
                &&& tys_view(r@) == xs
                &&& final(self).next_var() == v
                &&& diags(final(self).errors@) == diags(old(self).errors@) + d
                &&& mapping_views(final(signature_holes)@) == h
            }),
            frame(*old(self), *final(self)),
        decreases tes@,
    {
        let ghost al = alias_views(self.registry);
        let ghost gal = generic_alias_views(self.registry);
        let ghost s0 = *self;
        let ghost h0 = mapping_views(signature_holes@);
        let mut out: Vec<Ty> = Vec::new();
        let mut i: usize = 0;
        assert(tes@.take(0) =~= Seq::<TypeExpr>::empty());
        assert(tys_view(out@) =~= Seq::<TyV>::empty());
        assert(diags(self.errors@) =~= diags(s0.errors@) + Seq::empty());
        while i < tes.len()
            invariant
                i <= tes@.len(),
                frame(s0, *self),
                s0 == *old(self),
                h0 == mapping_views(old(signature_holes)@),
                al == alias_views(self.registry),
                gal == generic_alias_views(self.registry),
                ({
                    let (xs, v, d, h) = signature_list(al, gal, s0.next_var(), h0, tes@.take(i as int));
                    &&& tys_view(out@) == xs
                    &&& self.next_var() == v
                    &&& diags(self.errors@) == diags(s0.errors@) + d
                    &&& mapping_views(signature_holes@) == h
                }),
            decreases tes.len() - i,
        {
            let t = self.resolve_signature_type(&tes[i], signature_holes);
            let ghost prev = out@;
            out.push(t);
            assert(out@.drop_last() =~= prev);
            assert(tes@.take(i + 1).drop_last() =~= tes@.take(i as int));
            let ghost prior = signature_list(al, gal, s0.next_var(), h0, tes@.take(i as int));
            let ghost step = signature_spec(al, gal, prior.1, prior.3, tes@[i as int]);
            assert(diags(self.errors@) =~= diags(s0.errors@) + (prior.2 + step.2));
            i = i + 1;
        }
        assert(tes@.take(tes.len() as int) =~= tes@);
        out
    }
}

} // verus!
