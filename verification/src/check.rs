//! The type-inference core of the checker: resolving written types, type
//! variables and their substitution, instantiation of type parameters,
//! unification, and the effect-propagation check.
//!
//! Types are specified through their values (`ty_view`), so that a copy of
//! a type and the type itself are interchangeable in every contract.

use vstd::prelude::*;
use crate::ast::{MatchArm, Pattern, TypeExpr, share_predicate};
use crate::effect_set::{EffectHierarchy, EffectSet, expansion};
use crate::env::{MethodInfo, TypeRegistry};
use crate::module::{ModuleInterface, ModuleRegistry};
use crate::error::{ErrorCode, TypeError, diags};
use crate::name_map::NameMap;
use crate::names::{
    views, sorted, sorted_listing, join_with, join_strings, lemma_sorted_unique, clone_names,
};
use crate::text::{decimal, push_decimal, str_eq, string_of};
use crate::types::{
    Ty, TyV, ty_view, tys_view, fields_view, lemma_tys_view, lemma_fields_view, clone_ty,
    ty_same, ty_eq, tyv_text, lemma_text_view,
};

verus! {

// ---------------------------------------------------------------------------
// Substitutions
// ---------------------------------------------------------------------------

/// A map from type variables to types: the bindings inference makes, or a
/// renaming of variables.
#[derive(Debug)]
pub struct Substitution {
    ids: Vec<u32>,
    tys: Vec<Ty>,
}

impl View for Substitution {
    type V = Map<u32, TyV>;

    closed spec fn view(&self) -> Map<u32, TyV> {
        Map::new(
            |k: u32| self.ids@.contains(k),
            |k: u32| ty_view(self.tys@[self.ids@.index_of(k)]),
        )
    }
}

impl Substitution {
    #[verifier::type_invariant]
    closed spec fn wf(&self) -> bool {
        &&& self.ids@.no_duplicates()
        &&& self.ids@.len() == self.tys@.len()
    }

    /// The number of bound variables.
    pub closed spec fn size(&self) -> nat {
        self.ids@.len()
    }

    pub fn new() -> (r: Self)
        ensures
            r@ == Map::<u32, TyV>::empty(),
            r.size() == 0,
    {
        let r = Substitution { ids: Vec::new(), tys: Vec::new() };
        assert(r@ =~= Map::<u32, TyV>::empty());
        r
    }

    /// The number of bound variables.
    pub fn len(&self) -> (n: usize)
        ensures
            n == self.size(),
            n == self@.dom().len(),
            self@.dom().finite(),
    {
        proof {
            use_type_invariant(self);
            self.ids@.unique_seq_to_set();
            assert(self@.dom() =~= self.ids@.to_set());
        }
        self.ids.len()
    }

    fn position(&self, id: u32) -> (r: Option<usize>)
        ensures
            r matches Some(i) ==> i < self.ids@.len() && self.ids@[i as int] == id,
            r is None <==> !self.ids@.contains(id),
    {
        let mut i: usize = 0;
        while i < self.ids.len()
            invariant
                i <= self.ids@.len(),
                forall|k: int| 0 <= k < i ==> self.ids@[k] != id,
            decreases self.ids.len() - i,
        {
            if self.ids[i] == id {
                return Some(i);
            }
            i = i + 1;
        }
        None
    }

    /// The type bound to `id`, if any.
    pub fn get(&self, id: &u32) -> (r: Option<&Ty>)
        ensures
            r is Some <==> self@.contains_key(*id),
            r matches Some(t) ==> ty_view(*t) == self@[*id],
    {
        proof { use_type_invariant(self); }
        match self.position(*id) {
            Some(i) => {
                proof {
                    assert(self.ids@.contains(*id));
                    assert(self.ids@.index_of(*id) == i) by {
                        assert(self.ids@.no_duplicates());
                    }
                }
                Some(&self.tys[i])
            },
            None => None,
        }
    }

    /// Binds `id` to `ty`, replacing an earlier binding.
    pub fn insert(&mut self, id: u32, ty: Ty)
        ensures
            final(self)@ == old(self)@.insert(id, ty_view(ty)),
            final(self).size() == if old(self)@.contains_key(id) {
                old(self).size()
            } else {
                old(self).size() + 1
            },
    {
        proof { use_type_invariant(&*self); }
        let ghost k = ty_view(ty);
        let pos = self.position(id);
        let mut taken = Substitution::new();
        std::mem::swap(&mut taken, self);
        proof { use_type_invariant(&taken); }
        let Substitution { ids: mut ids, tys: mut tys } = taken;
        let ghost oids = ids@;
        let ghost otys = tys@;
        if let Some(i) = pos {
            tys.set(i, ty);
            *self = Substitution { ids, tys };
            assert(self@ =~= old(self)@.insert(id, k)) by {
                assert forall|x: u32| #[trigger] self@.contains_key(x) implies self@[x]
                    == old(self)@.insert(id, k)[x] by {
                    let j = oids.index_of(x);
                    assert(oids.contains(x));
                    assert(oids.index_of(id) == i);
                }
            }
        } else {
            ids.push(id);
            tys.push(ty);
            *self = Substitution { ids, tys };
            assert(!oids.contains(id));
            assert(self.ids@.no_duplicates()) by {
                assert forall|a: int, b: int|
                    0 <= a < self.ids@.len() && 0 <= b < self.ids@.len() && a != b implies self.ids@[a]
                    != self.ids@[b] by {
                    if a < oids.len() && b < oids.len() {
                    } else if a == oids.len() {
                        assert(oids[b] == self.ids@[b]);
                    } else {
                        assert(oids[a] == self.ids@[a]);
                    }
                }
            }
            assert(self@ =~= old(self)@.insert(id, k)) by {
                assert forall|x: u32| self@.contains_key(x) == old(self)@.insert(id, k).contains_key(x) by {
                    if oids.contains(x) {
                        let j = oids.index_of(x);
                        assert(self.ids@[j] == x);
                    }
                    if x == id {
                        assert(self.ids@[oids.len() as int] == x);
                    }
                    if self.ids@.contains(x) && x != id {
                        let j = self.ids@.index_of(x);
                        assert(j < oids.len());
                        assert(oids[j] == x);
                    }
                }
                assert forall|x: u32| #[trigger] self@.contains_key(x) implies self@[x]
                    == old(self)@.insert(id, k)[x] by {
                    if x == id {
                        assert(self.ids@.index_of(x) == oids.len());
                    } else {
                        let j = oids.index_of(x);
                        assert(oids.contains(x));
                        assert(self.ids@[j] == x);
                        assert(self.ids@.index_of(x) == j);
                    }
                }
            }
        }
    }
}

// ---------------------------------------------------------------------------
// What inference computes, on type values
// ---------------------------------------------------------------------------

/// What diagnostics a step adds: code and message of each, in order.
pub type Diags = Seq<(ErrorCode, Seq<char>)>;

/// The counter after handing out one more variable; it stays at the
/// largest id once reached.
pub open spec fn next_id(v: u32) -> u32 {
    if v < u32::MAX {
        (v + 1) as u32
    } else {
        v
    }
}

/// The counter after handing out `k` more variables.
pub open spec fn advance(v: u32, k: nat) -> u32
    decreases k,
{
    if k == 0 {
        v
    } else {
        next_id(advance(v, (k - 1) as nat))
    }
}

/// The values of the plain aliases.
pub open spec fn alias_views(r: TypeRegistry) -> Map<Seq<char>, TyV> {
    r.type_aliases@.map_values(|t: Ty| ty_view(t))
}

/// The parameter names and template value of each generic alias.
pub open spec fn generic_alias_views(r: TypeRegistry) -> Map<Seq<char>, (Seq<Seq<char>>, TyV)> {
    r.generic_type_aliases@.map_values(|p: (Vec<String>, Ty)| (views(p.0@), ty_view(p.1)))
}

/// The values a name-to-type mapping holds.
pub open spec fn mapping_views(m: Map<Seq<char>, Ty>) -> Map<Seq<char>, TyV> {
    m.map_values(|t: Ty| ty_view(t))
}

/// A written type name: the primitives by their names, then an alias, then
/// a named type.
pub open spec fn named_view(al: Map<Seq<char>, TyV>, n: Seq<char>) -> TyV {
    if n == "I32"@ {
        TyV::I32
    } else if n == "I8"@ {
        TyV::I8
    } else if n == "I16"@ {
        TyV::I16
    } else if n == "I64"@ {
        TyV::I64
    } else if n == "U8"@ {
        TyV::U8
    } else if n == "U16"@ {
        TyV::U16
    } else if n == "U32"@ {
        TyV::U32
    } else if n == "U64"@ {
        TyV::U64
    } else if n == "F32"@ {
        TyV::F32
    } else if n == "F64"@ {
        TyV::F64
    } else if n == "Bool"@ {
        TyV::Bool
    } else if n == "Str"@ {
        TyV::Str
    } else if n == "Never"@ {
        TyV::Never
    } else if al.contains_key(n) {
        al[n]
    } else {
        TyV::Named(n)
    }
}

/// Pairs each name with the value at the same position; a later pair for
/// the same name replaces an earlier one.
pub open spec fn zip_map(ps: Seq<Seq<char>>, xs: Seq<TyV>) -> Map<Seq<char>, TyV>
    decreases ps.len(),
{
    if ps.len() == 0 || xs.len() == 0 {
        Map::empty()
    } else {
        zip_map(ps.drop_last(), xs.drop_last()).insert(ps.last(), xs.last())
    }
}

/// Replaces each named type that `m` maps by its image, top-down: an
/// image is not looked into again.
pub open spec fn inst_view(m: Map<Seq<char>, TyV>, t: TyV) -> TyV
    decreases t,
{
    match t {
        TyV::Named(n) => if m.contains_key(n) {
            m[n]
        } else {
            t
        },
        TyV::App(n, xs) => TyV::App(n, inst_list(m, xs)),
        TyV::Tuple(xs) => TyV::Tuple(inst_list(m, xs)),
        TyV::Fn(ps, r, c) => TyV::Fn(inst_list(m, ps), Box::new(inst_view(m, *r)), c),
        TyV::Outcome(a, b) => TyV::Outcome(Box::new(inst_view(m, *a)), Box::new(inst_view(m, *b))),
        TyV::Record(fs) => TyV::Record(inst_fields(m, fs)),
        TyV::Refined(b, v, p) => TyV::Refined(Box::new(inst_view(m, *b)), v, p),
        _ => t,
    }
}

pub open spec fn inst_list(m: Map<Seq<char>, TyV>, xs: Seq<TyV>) -> Seq<TyV>
    decreases xs,
{
    if xs.len() == 0 {
        Seq::empty()
    } else {
        inst_list(m, xs.drop_last()).push(inst_view(m, xs.last()))
    }
}

pub open spec fn inst_fields(m: Map<Seq<char>, TyV>, fs: Seq<(Seq<char>, TyV)>) -> Seq<
    (Seq<char>, TyV),
>
    decreases fs,
{
    if fs.len() == 0 {
        Seq::empty()
    } else {
        inst_fields(m, fs.drop_last()).push((fs.last().0, inst_view(m, fs.last().1)))
    }
}

/// The message for a generic alias given the wrong number of arguments.
pub open spec fn alias_arity_message(n: Seq<char>, expected: nat, got: nat) -> Seq<char> {
    "type alias `"@ + n + "` expects "@ + decimal(expected) + " type arguments, got "@ + decimal(
        got,
    )
}

/// A generic type applied to resolved arguments: a generic alias is
/// instantiated (with an arity check), any other name is an application.
pub open spec fn inst_alias(
    gal: Map<Seq<char>, (Seq<Seq<char>>, TyV)>,
    n: Seq<char>,
    xs: Seq<TyV>,
) -> (TyV, Diags) {
    if !gal.contains_key(n) {
        (TyV::App(n, xs), Seq::empty())
    } else if gal[n].0.len() != xs.len() {
        (
            TyV::Error,
            seq![(ErrorCode::E0002, alias_arity_message(n, gal[n].0.len(), xs.len()))],
        )
    } else {
        (inst_view(zip_map(gal[n].0, xs), gal[n].1), Seq::empty())
    }
}

/// Resolving a written type from counter `v`: the type, the counter after
/// (each hole takes a fresh variable), and the diagnostics.
pub open spec fn resolve_spec(
    al: Map<Seq<char>, TyV>,
    gal: Map<Seq<char>, (Seq<Seq<char>>, TyV)>,
    v: u32,
    te: TypeExpr,
) -> (TyV, u32, Diags)
    decreases te,
{
    match te {
        TypeExpr::Named(n) => (named_view(al, n@), v, Seq::empty()),
        TypeExpr::Hole(_) => (TyV::Var(v), next_id(v), Seq::empty()),
        TypeExpr::Generic(n, args) => {
            let (xs, v1, d1) = resolve_list(al, gal, v, args@);
            let (t, d2) = inst_alias(gal, n@, xs);
            (t, v1, d1 + d2)
        },
        TypeExpr::Tuple(ts) => if ts@.len() == 0 {
            (TyV::Unit, v, Seq::empty())
        } else {
            let (xs, v1, d1) = resolve_list(al, gal, v, ts@);
            (TyV::Tuple(xs), v1, d1)
        },
        TypeExpr::Function(ps, r, _) => {
            let (xs, v1, d1) = resolve_list(al, gal, v, ps@);
            let (rt, v2, d2) = resolve_spec(al, gal, v1, *r);
            (TyV::Fn(xs, Box::new(rt), Seq::empty()), v2, d1 + d2)
        },
        TypeExpr::Refinement(b, var, p) => {
            let (bt, v1, d1) = resolve_spec(al, gal, v, *b);
            (TyV::Refined(Box::new(bt), var@, *p), v1, d1)
        },
        TypeExpr::Record(fs) => {
            let (xs, v1, d1) = resolve_fields(al, gal, v, fs@);
            (TyV::Record(xs), v1, d1)
        },
    }
}

pub open spec fn resolve_list(
    al: Map<Seq<char>, TyV>,
    gal: Map<Seq<char>, (Seq<Seq<char>>, TyV)>,
    v: u32,
    tes: Seq<TypeExpr>,
) -> (Seq<TyV>, u32, Diags)
    decreases tes,
{
    if tes.len() == 0 {
        (Seq::empty(), v, Seq::empty())
    } else {
        let (xs, v1, d1) = resolve_list(al, gal, v, tes.drop_last());
        let (x, v2, d2) = resolve_spec(al, gal, v1, tes.last());
        (xs.push(x), v2, d1 + d2)
    }
}

pub open spec fn resolve_fields(
    al: Map<Seq<char>, TyV>,
    gal: Map<Seq<char>, (Seq<Seq<char>>, TyV)>,
    v: u32,
    fs: Seq<(String, TypeExpr)>,
) -> (Seq<(Seq<char>, TyV)>, u32, Diags)
    decreases fs,
{
    if fs.len() == 0 {
        (Seq::empty(), v, Seq::empty())
    } else {
        let (xs, v1, d1) = resolve_fields(al, gal, v, fs.drop_last());
        let (x, v2, d2) = resolve_spec(al, gal, v1, fs.last().1);
        (xs.push((fs.last().0@, x)), v2, d1 + d2)
    }
}

/// Applying a substitution: each bound variable is replaced by its binding,
/// itself applied, following at most `fuel` bindings along any chain.
pub open spec fn apply_view(s: Map<u32, TyV>, fuel: nat, t: TyV) -> TyV
    decreases fuel, t,
{
    match t {
        TyV::Var(id) => if s.contains_key(id) && fuel > 0 {
            apply_view(s, (fuel - 1) as nat, s[id])
        } else {
            t
        },
        TyV::App(n, xs) => TyV::App(n, apply_list(s, fuel, xs)),
        TyV::Tuple(xs) => TyV::Tuple(apply_list(s, fuel, xs)),
        TyV::Fn(ps, r, c) => TyV::Fn(apply_list(s, fuel, ps), Box::new(apply_view(s, fuel, *r)), c),
        TyV::Outcome(a, b) => TyV::Outcome(
            Box::new(apply_view(s, fuel, *a)),
            Box::new(apply_view(s, fuel, *b)),
        ),
        TyV::Record(fs) => TyV::Record(apply_fields(s, fuel, fs)),
        TyV::Refined(b, v, p) => TyV::Refined(Box::new(apply_view(s, fuel, *b)), v, p),
        _ => t,
    }
}

pub open spec fn apply_list(s: Map<u32, TyV>, fuel: nat, xs: Seq<TyV>) -> Seq<TyV>
    decreases fuel, xs,
{
    if xs.len() == 0 {
        Seq::empty()
    } else {
        apply_list(s, fuel, xs.drop_last()).push(apply_view(s, fuel, xs.last()))
    }
}

pub open spec fn apply_fields(s: Map<u32, TyV>, fuel: nat, fs: Seq<(Seq<char>, TyV)>) -> Seq<
    (Seq<char>, TyV),
>
    decreases fuel, fs,
{
    if fs.len() == 0 {
        Seq::empty()
    } else {
        apply_fields(s, fuel, fs.drop_last()).push((fs.last().0, apply_view(s, fuel, fs.last().1)))
    }
}

/// The variable `id` occurs in `t` (refinement predicates aside).
pub open spec fn mentions(t: TyV, id: u32) -> bool
    decreases t,
{
    match t {
        TyV::Var(v) => v == id,
        TyV::App(_, xs) => mentions_list(xs, id),
        TyV::Tuple(xs) => mentions_list(xs, id),
        TyV::Fn(ps, r, _) => mentions_list(ps, id) || mentions(*r, id),
        TyV::Outcome(a, b) => mentions(*a, id) || mentions(*b, id),
        TyV::Record(fs) => mentions_fields(fs, id),
        TyV::Refined(b, _, _) => mentions(*b, id),
        _ => false,
    }
}

pub open spec fn mentions_list(xs: Seq<TyV>, id: u32) -> bool
    decreases xs,
{
    if xs.len() == 0 {
        false
    } else {
        mentions_list(xs.drop_last(), id) || mentions(xs.last(), id)
    }
}

pub open spec fn mentions_fields(fs: Seq<(Seq<char>, TyV)>, id: u32) -> bool
    decreases fs,
{
    if fs.len() == 0 {
        false
    } else {
        mentions_fields(fs.drop_last(), id) || mentions(fs.last().1, id)
    }
}

/// Some type variable occurs in `t`.
pub open spec fn has_var(t: TyV) -> bool
    decreases t,
{
    match t {
        TyV::Var(_) => true,
        TyV::App(_, xs) => has_var_list(xs),
        TyV::Tuple(xs) => has_var_list(xs),
        TyV::Fn(ps, r, _) => has_var_list(ps) || has_var(*r),
        TyV::Outcome(a, b) => has_var(*a) || has_var(*b),
        TyV::Record(fs) => has_var_fields(fs),
        TyV::Refined(b, _, _) => has_var(*b),
        _ => false,
    }
}

pub open spec fn has_var_list(xs: Seq<TyV>) -> bool
    decreases xs,
{
    if xs.len() == 0 {
        false
    } else {
        has_var_list(xs.drop_last()) || has_var(xs.last())
    }
}

pub open spec fn has_var_fields(fs: Seq<(Seq<char>, TyV)>) -> bool
    decreases fs,
{
    if fs.len() == 0 {
        false
    } else {
        has_var_fields(fs.drop_last()) || has_var(fs.last().1)
    }
}

/// The names under which implementations for a type are looked up: a
/// named or applied type by its name, a primitive by its own name, a
/// refined type by its base; other types have none.
pub open spec fn targets(t: TyV) -> Seq<Seq<char>>
    decreases t,
{
    match t {
        TyV::Refined(b, _, _) => targets(*b),
        TyV::Named(n) => seq![n],
        TyV::App(n, _) => seq![n],
        TyV::I8 => seq!["I8"@],
        TyV::I16 => seq!["I16"@],
        TyV::I32 => seq!["I32"@],
        TyV::I64 => seq!["I64"@],
        TyV::U8 => seq!["U8"@],
        TyV::U16 => seq!["U16"@],
        TyV::U32 => seq!["U32"@],
        TyV::U64 => seq!["U64"@],
        TyV::F32 => seq!["F32"@],
        TyV::F64 => seq!["F64"@],
        TyV::Bool => seq!["Bool"@],
        TyV::Str => seq!["Str"@],
        TyV::Unit => seq!["Unit"@],
        TyV::Never => seq!["Never"@],
        _ => Seq::empty(),
    }
}

/// Each type parameter paired with a fresh variable handed out in order
/// from counter `v`; a repeated name keeps the last.
pub open spec fn sig_map(ps: Seq<Seq<char>>, v: u32) -> Map<Seq<char>, TyV>
    decreases ps.len(),
{
    if ps.len() == 0 {
        Map::empty()
    } else {
        sig_map(ps.drop_last(), v).insert(
            ps.last(),
            TyV::Var(advance(v, (ps.len() - 1) as nat)),
        )
    }
}

/// The message for effects a callee needs and the caller lacks.
pub open spec fn missing_effects_message(missing: Set<Seq<char>>) -> Seq<char> {
    "missing effects ["@ + join_with(sorted_listing(missing), ", "@)
        + "]: caller does not declare them"@
}

// ---------------------------------------------------------------------------
// The checker's inference state
// ---------------------------------------------------------------------------

/// The inference state of the type checker: diagnostics so far, the
/// declarations, the substitution of type variables, the effects the
/// function being checked declares, the stack of effect observers, the
/// registered modules, and the named effect surfaces.
pub struct Checker {
    pub errors: Vec<TypeError>,
    pub registry: TypeRegistry,
    pub substitution: Substitution,
    /// Required effects of the function currently being checked.
    pub current_effects: EffectSet,
    /// Declared error set (`! E1 | E2`) of the function currently being
    /// checked.
    pub current_errors: EffectSet,
    /// Name of the function currently being checked.
    pub current_function: String,
    /// Next type variable id.
    pub next_var_id: u32,
    /// Effects observed by the open observers, innermost last.
    pub effect_observation_stack: Vec<EffectSet>,
    /// The modules whose exports calls may use.
    pub module_registry: ModuleRegistry,
    /// Named surfaces, for expanding `uses` clauses to atomic effects.
    pub hierarchy: EffectHierarchy,
}

/// `b` is `a` with diagnostics added and the counter possibly moved;
/// nothing else changes.
pub open spec fn frame(a: Checker, b: Checker) -> bool {
    &&& b.registry == a.registry
    &&& b.substitution == a.substitution
    &&& b.current_effects == a.current_effects
    &&& b.current_function == a.current_function
    &&& b.observed() == a.observed()
}

impl Checker {
    /// The next type variable id.
    pub open spec fn next_var(&self) -> u32 {
        self.next_var_id
    }

    /// The effects each open observer has seen, innermost last.
    pub open spec fn observed(&self) -> Seq<Set<Seq<char>>> {
        self.effect_observation_stack@.map_values(|e: EffectSet| e@)
    }

    pub fn new() -> (r: Self)
        ensures
            r.errors@ == Seq::<TypeError>::empty(),
            r.registry.type_aliases@ == Map::<Seq<char>, Ty>::empty(),
            r.registry.generic_type_aliases@ == Map::<Seq<char>, (Vec<String>, Ty)>::empty(),
            r.registry.types@ == Map::<Seq<char>, Vec<(String, Vec<Ty>)>>::empty(),
            r.registry.type_type_params@ == Map::<Seq<char>, Vec<String>>::empty(),
            r.registry.structs@ == Map::<Seq<char>, Vec<(String, Ty)>>::empty(),
            r.registry.struct_type_params@ == Map::<Seq<char>, Vec<String>>::empty(),
            r.registry.functions@ == Map::<Seq<char>, (Vec<Ty>, Ty, EffectSet)>::empty(),
            r.registry.methods@ == Map::<Seq<char>, Vec<MethodInfo>>::empty(),
            r.substitution@ == Map::<u32, TyV>::empty(),
            r.substitution.size() == 0,
            r.current_effects@ == Set::<Seq<char>>::empty(),
            r.current_function@ == Seq::<char>::empty(),
            r.next_var() == 0,
            r.observed() == Seq::<Set<Seq<char>>>::empty(),
            r.module_registry.modules_view() == Map::<Seq<char>, ModuleInterface>::empty(),
            r.hierarchy@ == Map::<Seq<char>, Set<Seq<char>>>::empty(),
            r.current_errors@ == Set::<Seq<char>>::empty(),
    {
        let r = Checker {
            errors: Vec::new(),
            registry: TypeRegistry::new(),
            substitution: Substitution::new(),
            current_effects: EffectSet::new(),
            current_errors: EffectSet::new(),
            current_function: String::new(),
            next_var_id: 0,
            effect_observation_stack: Vec::new(),
            module_registry: ModuleRegistry::new(),
            hierarchy: EffectHierarchy::new(),
        };
        assert(r.observed() =~= Seq::<Set<Seq<char>>>::empty());
        r
    }

    /// A checker like `new`'s whose calls may use the modules of
    /// `module_registry`.
    pub fn with_module_registry(module_registry: ModuleRegistry) -> (r: Self)
        ensures
            r.errors@ == Seq::<TypeError>::empty(),
            r.registry.type_aliases@ == Map::<Seq<char>, Ty>::empty(),
            r.registry.generic_type_aliases@ == Map::<Seq<char>, (Vec<String>, Ty)>::empty(),
            r.registry.types@ == Map::<Seq<char>, Vec<(String, Vec<Ty>)>>::empty(),
            r.registry.functions@ == Map::<Seq<char>, (Vec<Ty>, Ty, EffectSet)>::empty(),
            r.substitution@ == Map::<u32, TyV>::empty(),
            r.current_effects@ == Set::<Seq<char>>::empty(),
            r.current_function@ == Seq::<char>::empty(),
            r.next_var() == 0,
            r.observed() == Seq::<Set<Seq<char>>>::empty(),
            r.module_registry == module_registry,
    {
        let mut r = Checker::new();
        r.module_registry = module_registry;
        r
    }

    /// The atomic effects a `uses` clause declares: its names with the named
    /// surfaces expanded; none without a clause.
    pub fn declared_effects(&self, uses_clause: Option<&Vec<String>>) -> (r: EffectSet)
        ensures
            r@ == match uses_clause {
                Some(names) => expansion(self.hierarchy@, views(names@).to_set()),
                None => Set::empty(),
            },
    {
        match uses_clause {
            Some(names) => {
                let raw = EffectSet::from_names(clone_names(names.as_slice()));
                self.hierarchy.expand(&raw)
            },
            None => EffectSet::new(),
        }
    }

    /// Records a diagnostic.
    pub(crate) fn err(&mut self, code: ErrorCode, message: String)
        ensures
            final(self).errors@ == old(self).errors@.push(TypeError { code, message, span: None }),
            diags(final(self).errors@) == diags(old(self).errors@).push((code, message@)),
            frame(*old(self), *final(self)),
            final(self).next_var() == old(self).next_var(),
            final(self).current_errors == old(self).current_errors,
    {
        self.errors.push(TypeError::new(code, message));
        assert(diags(self.errors@) =~= diags(old(self).errors@).push((code, message@)));
    }

    // ── Effect observers ────────────────────────────────────────────

    /// Opens an observer that collects the effects seen until it is closed.
    pub fn push_effect_observer(&mut self)
        ensures
            final(self).observed() == old(self).observed().push(Set::empty()),
            final(self).errors == old(self).errors,
            final(self).registry == old(self).registry,
            final(self).substitution == old(self).substitution,
            final(self).current_effects == old(self).current_effects,
            final(self).next_var() == old(self).next_var(),
    {
        self.effect_observation_stack.push(EffectSet::new());
        assert(self.observed() =~= old(self).observed().push(Set::empty()));
    }

    /// Closes the innermost observer and returns what it saw; with no
    /// observer open, the empty set.
    pub fn pop_effect_observer(&mut self) -> (r: EffectSet)
        ensures
            old(self).observed().len() > 0 ==> r@ == old(self).observed().last()
                && final(self).observed() == old(self).observed().drop_last(),
            old(self).observed().len() == 0 ==> r@ == Set::<Seq<char>>::empty()
                && final(self).observed() == old(self).observed(),
            final(self).errors == old(self).errors,
            final(self).registry == old(self).registry,
            final(self).substitution == old(self).substitution,
            final(self).current_effects == old(self).current_effects,
            final(self).next_var() == old(self).next_var(),
    {
        match self.effect_observation_stack.pop() {
            Some(e) => {
                assert(self.observed() =~= old(self).observed().drop_last());
                e
            },
            None => {
                assert(self.observed() =~= old(self).observed());
                EffectSet::new()
            },
        }
    }

    /// Adds `effects` to what the innermost observer has seen.
    pub fn observe_effects(&mut self, effects: &EffectSet)
        ensures
            old(self).observed().len() > 0 ==> final(self).observed() == old(self).observed().update(
                old(self).observed().len() - 1,
                old(self).observed().last().union(effects@),
            ),
            old(self).observed().len() == 0 ==> final(self).observed() == old(self).observed(),
            final(self).errors == old(self).errors,
            final(self).registry == old(self).registry,
            final(self).substitution == old(self).substitution,
            final(self).current_effects == old(self).current_effects,
            final(self).next_var() == old(self).next_var(),
    {
        if let Some(current) = self.effect_observation_stack.pop() {
            self.effect_observation_stack.push(current.union(effects));
            assert(self.observed() =~= old(self).observed().update(
                old(self).observed().len() - 1,
                old(self).observed().last().union(effects@),
            ));
        } else {
            assert(self.observed() =~= old(self).observed());
        }
    }

    /// Adds one effect to what the innermost observer has seen.
    pub fn observe_effect(&mut self, effect: String)
        ensures
            old(self).observed().len() > 0 ==> final(self).observed() == old(self).observed().update(
                old(self).observed().len() - 1,
                old(self).observed().last().insert(effect@),
            ),
            old(self).observed().len() == 0 ==> final(self).observed() == old(self).observed(),
            final(self).errors == old(self).errors,
            final(self).registry == old(self).registry,
            final(self).substitution == old(self).substitution,
            final(self).current_effects == old(self).current_effects,
            final(self).next_var() == old(self).next_var(),
    {
        let mut set = EffectSet::new();
        let ghost e = effect@;
        set.insert(effect);
        assert(set@ =~= Set::<Seq<char>>::empty().insert(e));
        self.observe_effects(&set);
        proof {
            if old(self).observed().len() > 0 {
                assert(old(self).observed().last().union(set@) =~= old(self).observed().last().insert(e));
            }
        }
    }

    // ── Effect propagation ──────────────────────────────────────────

    /// Checks that the current function declares every effect the callee
    /// needs: the callee's effects are observed, and the missing ones, if
    /// any, are reported in one diagnostic.
    pub fn check_effect_propagation(&mut self, callee_effects: &EffectSet)
        ensures
            final(self).current_effects == old(self).current_effects,
            final(self).registry == old(self).registry,
            final(self).substitution == old(self).substitution,
            final(self).next_var() == old(self).next_var(),
            old(self).observed().len() > 0 ==> final(self).observed() == old(self).observed().update(
                old(self).observed().len() - 1,
                old(self).observed().last().union(callee_effects@),
            ),
            old(self).observed().len() == 0 ==> final(self).observed() == old(self).observed(),
            callee_effects@.subset_of(old(self).current_effects@) ==> final(self).errors@ == old(
                self,
            ).errors@,
            !callee_effects@.subset_of(old(self).current_effects@) ==> diags(final(self).errors@)
                == diags(old(self).errors@).push(
                (
                    ErrorCode::F0001,
                    missing_effects_message(
                        callee_effects@.difference(old(self).current_effects@),
                    ),
                ),
            ),
    {
        self.observe_effects(callee_effects);
        let missing = self.current_effects.missing_from(callee_effects);
        if missing.len() > 0 {
            let ghost d = callee_effects@.difference(self.current_effects@);
            proof {
                assert(sorted(sorted_listing(d)) && sorted_listing(d).to_set() == d);
                lemma_sorted_unique(views(missing@), sorted_listing(d));
            }
            let mut message = string_of("missing effects [");
            let list = join_strings(missing.as_slice(), ", ");
            message.append(list.as_str());
            message.append("]: caller does not declare them");
            self.err(ErrorCode::F0001, message);
            proof {
                assert(!callee_effects@.subset_of(old(self).current_effects@)) by {
                    assert(views(missing@).len() > 0);
                    assert(d.contains(views(missing@)[0]));
                }
            }
        } else {
            proof {
                assert(views(missing@).to_set() =~= Set::<Seq<char>>::empty());
                assert forall|x: Seq<char>| callee_effects@.contains(x) implies old(self).current_effects@.contains(x) by {
                    if !old(self).current_effects@.contains(x) {
                        assert(callee_effects@.difference(old(self).current_effects@).contains(x));
                    }
                }
            }
        }
    }
}

impl Checker {
    // ── Type variables ──────────────────────────────────────────────

    /// A fresh type variable. After the largest id the counter stays put.
    pub fn fresh_var(&mut self) -> (r: Ty)
        ensures
            ty_view(r) == TyV::Var(old(self).next_var()),
            final(self).next_var() == next_id(old(self).next_var()),
            final(self).errors == old(self).errors,
            frame(*old(self), *final(self)),
            final(self).module_registry == old(self).module_registry,
    {
        let id = self.next_var_id;
        if self.next_var_id < u32::MAX {
            self.next_var_id = self.next_var_id + 1;
        }
        Ty::Var(id)
    }

    // ── Type resolution ─────────────────────────────────────────────

    /// Resolves a written type: primitives by name, then aliases, then named
    /// types; each hole gets a fresh type variable; generic aliases are
    /// instantiated.
    pub fn resolve_type(&mut self, te: &TypeExpr) -> (r: Ty)
        ensures
            ({
                let (t, v, d) = resolve_spec(
                    alias_views(old(self).registry),
                    generic_alias_views(old(self).registry),
                    old(self).next_var(),
                    *te,
                );
                &&& ty_view(r) == t
                &&& final(self).next_var() == v
                &&& diags(final(self).errors@) == diags(old(self).errors@) + d
            }),
            frame(*old(self), *final(self)),
        decreases te,
    {
        let ghost al = alias_views(self.registry);
        let ghost gal = generic_alias_views(self.registry);
        match te {
            TypeExpr::Named(name) => {
                let n = name.as_str();
                let r = if str_eq(n, "I32") {
                    Ty::I32
                } else if str_eq(n, "I8") {
                    Ty::I8
                } else if str_eq(n, "I16") {
                    Ty::I16
                } else if str_eq(n, "I64") {
                    Ty::I64
                } else if str_eq(n, "U8") {
                    Ty::U8
                } else if str_eq(n, "U16") {
                    Ty::U16
                } else if str_eq(n, "U32") {
                    Ty::U32
                } else if str_eq(n, "U64") {
                    Ty::U64
                } else if str_eq(n, "F32") {
                    Ty::F32
                } else if str_eq(n, "F64") {
                    Ty::F64
                } else if str_eq(n, "Bool") {
                    Ty::Bool
                } else if str_eq(n, "Str") {
                    Ty::Str
                } else if str_eq(n, "Never") {
                    Ty::Never
                } else {
                    match self.registry.type_aliases.get(n) {
                        Some(t) => clone_ty(t),
                        None => Ty::Named(name.clone()),
                    }
                };
                assert(diags(self.errors@) =~= diags(old(self).errors@) + Seq::empty());
                r
            },
            TypeExpr::Hole(_) => {
                let r = self.fresh_var();
                assert(diags(self.errors@) =~= diags(old(self).errors@) + Seq::empty());
                r
            },
            TypeExpr::Generic(name, args) => {
                let resolved = self.resolve_types(args);
                let ghost mid = diags(self.errors@);
                let r = self.instantiate_generic_alias(name.as_str(), resolved);
                assert(diags(self.errors@) =~= diags(old(self).errors@) + (resolve_list(
                    al,
                    gal,
                    old(self).next_var(),
                    args@,
                ).2 + inst_alias(gal, name@, resolve_list(al, gal, old(self).next_var(), args@).0).1));
                r
            },
            TypeExpr::Tuple(types) => {
                if types.len() == 0 {
                    assert(diags(self.errors@) =~= diags(old(self).errors@) + Seq::empty());
                    Ty::Unit
                } else {
                    Ty::Tuple(self.resolve_types(types))
                }
            },
            TypeExpr::Function(params, ret, _) => {
                let ptys = self.resolve_types(params);
                let rt = self.resolve_type(ret);
                assert(diags(self.errors@) =~= diags(old(self).errors@) + (resolve_list(
                    al,
                    gal,
                    old(self).next_var(),
                    params@,
                ).2 + resolve_spec(
                    al,
                    gal,
                    resolve_list(al, gal, old(self).next_var(), params@).1,
                    **ret,
                ).2));
                Ty::Fn(ptys, Box::new(rt), EffectSet::new())
            },
            TypeExpr::Refinement(base, var_name, pred_expr) => {
                let base_ty = self.resolve_type(base);
                Ty::Refined(Box::new(base_ty), var_name.clone(), share_predicate(pred_expr))
            },
            TypeExpr::Record(fields) => {
                let mut out: Vec<(String, Ty)> = Vec::new();
                let mut i: usize = 0;
                let ghost s0 = *old(self);
                assert(fields@.take(0) =~= Seq::<(String, TypeExpr)>::empty());
                assert(fields_view(out@) =~= Seq::<(Seq<char>, TyV)>::empty());
                assert(diags(self.errors@) =~= diags(s0.errors@) + Seq::empty());
                #[verifier::loop_isolation(false)]
                while i < fields.len()
                    invariant
                        i <= fields@.len(),
                        frame(s0, *self),
                        ({
                            let (xs, v, d) = resolve_fields(al, gal, s0.next_var(), fields@.take(i as int));
                            &&& fields_view(out@) == xs
                            &&& self.next_var() == v
                            &&& diags(self.errors@) == diags(s0.errors@) + d
                        }),
                    decreases fields.len() - i,
                {
                    let f = &fields[i];
                    proof {
                        assert(decreases_to!(*te => fields@[i as int].1));
                    }
                    let ghost before = *self;
                    let t = self.resolve_type(&f.1);
                    let ghost prev = out@;
                    out.push((f.0.clone(), t));
                    assert(out@.drop_last() =~= prev);
                    assert(fields@.take(i + 1).drop_last() =~= fields@.take(i as int));
                    let ghost prior = resolve_fields(al, gal, s0.next_var(), fields@.take(i as int));
                    let ghost step = resolve_spec(al, gal, prior.1, fields@[i as int].1);
                    assert(diags(self.errors@) =~= diags(s0.errors@) + (prior.2 + step.2));
                    i = i + 1;
                }
                assert(fields@.take(fields.len() as int) =~= fields@);
                Ty::Record(out)
            },
        }
    }

    /// Resolves each written type in turn.
    fn resolve_types(&mut self, tes: &Vec<TypeExpr>) -> (r: Vec<Ty>)
        ensures
            ({
                let (xs, v, d) = resolve_list(
                    alias_views(old(self).registry),
                    generic_alias_views(old(self).registry),
                    old(self).next_var(),
                    tes@,
                );
                &&& tys_view(r@) == xs
                &&& final(self).next_var() == v
                &&& diags(final(self).errors@) == diags(old(self).errors@) + d
            }),
            frame(*old(self), *final(self)),
        decreases tes@,
    {
        let ghost al = alias_views(self.registry);
        let ghost gal = generic_alias_views(self.registry);
        let ghost s0 = *self;
        let mut out: Vec<Ty> = Vec::new();
        let mut i: usize = 0;
        assert(tes@.take(0) =~= Seq::<TypeExpr>::empty());
        assert(tys_view(out@) =~= Seq::<TyV>::empty());
        assert(diags(self.errors@) =~= diags(s0.errors@) + Seq::empty());
        while i < tes.len()
            invariant
                i <= tes@.len(),
                frame(s0, *self),
                al == alias_views(self.registry),
                gal == generic_alias_views(self.registry),
                ({
                    let (xs, v, d) = resolve_list(al, gal, s0.next_var(), tes@.take(i as int));
                    &&& tys_view(out@) == xs
                    &&& self.next_var() == v
                    &&& diags(self.errors@) == diags(s0.errors@) + d
                }),
            decreases tes.len() - i,
        {
            let t = self.resolve_type(&tes[i]);
            let ghost prev = out@;
            out.push(t);
            assert(out@.drop_last() =~= prev);
            assert(tes@.take(i + 1).drop_last() =~= tes@.take(i as int));
            let ghost prior = resolve_list(al, gal, s0.next_var(), tes@.take(i as int));
            let ghost step = resolve_spec(al, gal, prior.1, tes@[i as int]);
            assert(diags(self.errors@) =~= diags(s0.errors@) + (prior.2 + step.2));
            i = i + 1;
        }
        assert(tes@.take(tes.len() as int) =~= tes@);
        out
    }

    /// A generic type applied to resolved arguments: a generic alias is
    /// instantiated, after checking it gets as many arguments as it has
    /// parameters; any other name stays an application.
    pub(crate) fn instantiate_generic_alias(&mut self, name: &str, args: Vec<Ty>) -> (r: Ty)
        ensures
            ({
                let (t, d) = inst_alias(generic_alias_views(old(self).registry), name@, tys_view(args@));
                &&& ty_view(r) == t
                &&& diags(final(self).errors@) == diags(old(self).errors@) + d
            }),
            final(self).next_var() == old(self).next_var(),
            frame(*old(self), *final(self)),
    {
        let ghost gal = generic_alias_views(self.registry);
        proof { lemma_tys_view(args@); }
        let (type_params, target) = match self.registry.generic_type_aliases.get(name) {
            Some(entry) => (clone_names(entry.0.as_slice()), clone_ty(&entry.1)),
            None => {
                assert(diags(self.errors@) =~= diags(old(self).errors@) + Seq::empty());
                return Ty::App(string_of(name), args);
            },
        };
        assert(gal.contains_key(name@));
        assert(views(type_params@) == gal[name@].0);
        if type_params.len() != args.len() {
            let mut message = string_of("type alias `");
            message.append(name);
            message.append("` expects ");
            push_decimal(&mut message, type_params.len() as u64);
            message.append(" type arguments, got ");
            push_decimal(&mut message, args.len() as u64);
            assert(message@ =~= alias_arity_message(name@, gal[name@].0.len(), tys_view(args@).len()));
            self.err(ErrorCode::E0002, message);
            assert(diags(self.errors@) =~= diags(old(self).errors@) + seq![
                (ErrorCode::E0002, alias_arity_message(name@, gal[name@].0.len(), tys_view(args@).len())),
            ]);
            return Ty::Error;
        }
        let mut mapping: NameMap<Ty> = NameMap::new();
        let mut i: usize = 0;
        assert(mapping_views(mapping@) =~= zip_map(
            views(type_params@).take(0),
            tys_view(args@).take(0),
        ));
        while i < type_params.len()
            invariant
                i <= type_params@.len(),
                type_params@.len() == args@.len(),
                tys_view(args@).len() == args@.len(),
                forall|k: int| 0 <= k < args@.len() ==> #[trigger] tys_view(args@)[k] == ty_view(args@[k]),
                mapping_views(mapping@) == zip_map(
                    views(type_params@).take(i as int),
                    tys_view(args@).take(i as int),
                ),
            decreases type_params.len() - i,
        {
            let t = clone_ty(&args[i]);
            let ghost before = mapping@;
            mapping.insert(type_params[i].clone(), t);
            assert(views(type_params@).take(i + 1).drop_last() =~= views(type_params@).take(i as int));
            assert(tys_view(args@).take(i + 1).drop_last() =~= tys_view(args@).take(i as int));
            assert(mapping_views(mapping@) =~= mapping_views(before).insert(
                type_params@[i as int]@,
                ty_view(t),
            ));
            i = i + 1;
        }
        assert(views(type_params@).take(type_params.len() as int) =~= views(type_params@));
        assert(tys_view(args@).take(args.len() as int) =~= tys_view(args@));
        let r = self.instantiate_ty(&target, &mapping);
        assert(diags(self.errors@) =~= diags(old(self).errors@) + Seq::empty());
        r
    }

    // ── Instantiation ───────────────────────────────────────────────

    /// Replaces each named type that `mapping` maps by a copy of its image.
    pub fn instantiate_ty(&self, ty: &Ty, mapping: &NameMap<Ty>) -> (r: Ty)
        ensures
            ty_view(r) == inst_view(mapping_views(mapping@), ty_view(*ty)),
        decreases ty,
    {
        let ghost m = mapping_views(mapping@);
        match ty {
            Ty::Named(name) => match mapping.get(name.as_str()) {
                Some(t) => clone_ty(t),
                None => Ty::Named(name.clone()),
            },
            Ty::App(name, args) => Ty::App(name.clone(), self.instantiate_tys(args.as_slice(), mapping)),
            Ty::Tuple(ts) => Ty::Tuple(self.instantiate_tys(ts.as_slice(), mapping)),
            Ty::Fn(params, ret, caps) => Ty::Fn(
                self.instantiate_tys(params.as_slice(), mapping),
                Box::new(self.instantiate_ty(ret, mapping)),
                caps.clone(),
            ),
            Ty::Outcome(a, b) => Ty::Outcome(
                Box::new(self.instantiate_ty(a, mapping)),
                Box::new(self.instantiate_ty(b, mapping)),
            ),
            Ty::Record(fields) => {
                let mut out: Vec<(String, Ty)> = Vec::new();
                let mut i: usize = 0;
                assert(fields@.take(0) =~= Seq::<(String, Ty)>::empty());
                assert(fields_view(out@) =~= Seq::<(Seq<char>, TyV)>::empty());
                assert(fields_view(fields@.take(0)) =~= Seq::<(Seq<char>, TyV)>::empty());
                #[verifier::loop_isolation(false)]
                while i < fields.len()
                    invariant
                        i <= fields@.len(),
                        fields_view(out@) == inst_fields(m, fields_view(fields@.take(i as int))),
                    decreases fields.len() - i,
                {
                    let f = &fields[i];
                    proof {
                        assert(decreases_to!(*ty => fields@[i as int].1));
                    }
                    let t = self.instantiate_ty(&f.1, mapping);
                    let ghost prev = out@;
                    out.push((f.0.clone(), t));
                    assert(out@.drop_last() =~= prev);
                    assert(fields@.take(i + 1).drop_last() =~= fields@.take(i as int));
                    assert(fields_view(fields@.take(i + 1)).drop_last() =~= fields_view(
                        fields@.take(i as int),
                    ));
                    i = i + 1;
                }
                assert(fields@.take(fields.len() as int) =~= fields@);
                Ty::Record(out)
            },
            Ty::Refined(base, var, pred) => Ty::Refined(
                Box::new(self.instantiate_ty(base, mapping)),
                var.clone(),
                share_predicate(pred),
            ),
            other => clone_ty(other),
        }
    }

    pub(crate) fn instantiate_tys(&self, ts: &[Ty], mapping: &NameMap<Ty>) -> (r: Vec<Ty>)
        ensures
            tys_view(r@) == inst_list(mapping_views(mapping@), tys_view(ts@)),
        decreases ts@,
    {
        let ghost m = mapping_views(mapping@);
        let mut out: Vec<Ty> = Vec::new();
        let mut i: usize = 0;
        assert(ts@.take(0) =~= Seq::<Ty>::empty());
        assert(tys_view(out@) =~= Seq::<TyV>::empty());
        assert(tys_view(ts@.take(0)) =~= Seq::<TyV>::empty());
        while i < ts.len()
            invariant
                i <= ts@.len(),
                m == mapping_views(mapping@),
                tys_view(out@) == inst_list(m, tys_view(ts@.take(i as int))),
            decreases ts.len() - i,
        {
            let t = self.instantiate_ty(&ts[i], mapping);
            let ghost prev = out@;
            out.push(t);
            assert(out@.drop_last() =~= prev);
            assert(ts@.take(i + 1).drop_last() =~= ts@.take(i as int));
            assert(tys_view(ts@.take(i + 1)).drop_last() =~= tys_view(ts@.take(i as int)));
            i = i + 1;
        }
        assert(ts@.take(ts.len() as int) =~= ts@);
        out
    }
}

impl Checker {
    // ── Substitution ────────────────────────────────────────────────

    /// Applies the current substitution: each bound variable is replaced by
    /// its binding, itself applied. A chain of bindings is followed for at
    /// most as many steps as there are bindings; unification only binds
    /// variables that no earlier binding reaches, so its chains are never
    /// longer.
    pub fn apply_subst(&self, ty: &Ty) -> (r: Ty)
        ensures
            ty_view(r) == apply_view(self.substitution@, self.substitution@.dom().len(), ty_view(*ty)),
    {
        let fuel = self.substitution.len();
        self.apply_with_fuel(ty, fuel)
    }

    fn apply_with_fuel(&self, ty: &Ty, fuel: usize) -> (r: Ty)
        ensures
            ty_view(r) == apply_view(self.substitution@, fuel as nat, ty_view(*ty)),
        decreases fuel, ty,
    {
        let ghost s = self.substitution@;
        match ty {
            Ty::Var(id) => {
                if fuel > 0 {
                    match self.substitution.get(id) {
                        Some(t) => self.apply_with_fuel(t, fuel - 1),
                        None => Ty::Var(*id),
                    }
                } else {
                    Ty::Var(*id)
                }
            },
            Ty::App(name, args) => Ty::App(name.clone(), self.apply_list_with_fuel(args.as_slice(), fuel)),
            Ty::Tuple(ts) => Ty::Tuple(self.apply_list_with_fuel(ts.as_slice(), fuel)),
            Ty::Fn(params, ret, caps) => Ty::Fn(
                self.apply_list_with_fuel(params.as_slice(), fuel),
                Box::new(self.apply_with_fuel(ret, fuel)),
                caps.clone(),
            ),
            Ty::Outcome(a, b) => Ty::Outcome(
                Box::new(self.apply_with_fuel(a, fuel)),
                Box::new(self.apply_with_fuel(b, fuel)),
            ),
            Ty::Record(fields) => {
                let mut out: Vec<(String, Ty)> = Vec::new();
                let mut i: usize = 0;
                assert(fields@.take(0) =~= Seq::<(String, Ty)>::empty());
                assert(fields_view(out@) =~= Seq::<(Seq<char>, TyV)>::empty());
                assert(fields_view(fields@.take(0)) =~= Seq::<(Seq<char>, TyV)>::empty());
                #[verifier::loop_isolation(false)]
                while i < fields.len()
                    invariant
                        i <= fields@.len(),
                        fields_view(out@) == apply_fields(s, fuel as nat, fields_view(fields@.take(i as int))),
                    decreases fields.len() - i,
                {
                    let f = &fields[i];
                    proof {
                        assert(decreases_to!(*ty => fields@[i as int].1));
                    }
                    let t = self.apply_with_fuel(&f.1, fuel);
                    let ghost prev = out@;
                    out.push((f.0.clone(), t));
                    assert(out@.drop_last() =~= prev);
                    assert(fields@.take(i + 1).drop_last() =~= fields@.take(i as int));
                    assert(fields_view(fields@.take(i + 1)).drop_last() =~= fields_view(
                        fields@.take(i as int),
                    ));
                    i = i + 1;
                }
                assert(fields@.take(fields.len() as int) =~= fields@);
                Ty::Record(out)
            },
            Ty::Refined(base, var, pred) => Ty::Refined(
                Box::new(self.apply_with_fuel(base, fuel)),
                var.clone(),
                share_predicate(pred),
            ),
            other => clone_ty(other),
        }
    }

    fn apply_list_with_fuel(&self, ts: &[Ty], fuel: usize) -> (r: Vec<Ty>)
        ensures
            tys_view(r@) == apply_list(self.substitution@, fuel as nat, tys_view(ts@)),
        decreases fuel, ts@,
    {
        let ghost s = self.substitution@;
        let mut out: Vec<Ty> = Vec::new();
        let mut i: usize = 0;
        assert(ts@.take(0) =~= Seq::<Ty>::empty());
        assert(tys_view(out@) =~= Seq::<TyV>::empty());
        assert(tys_view(ts@.take(0)) =~= Seq::<TyV>::empty());
        while i < ts.len()
            invariant
                i <= ts@.len(),
                s == self.substitution@,
                tys_view(out@) == apply_list(s, fuel as nat, tys_view(ts@.take(i as int))),
            decreases ts.len() - i,
        {
            let t = self.apply_with_fuel(&ts[i], fuel);
            let ghost prev = out@;
            out.push(t);
            assert(out@.drop_last() =~= prev);
            assert(ts@.take(i + 1).drop_last() =~= ts@.take(i as int));
            assert(tys_view(ts@.take(i + 1)).drop_last() =~= tys_view(ts@.take(i as int)));
            i = i + 1;
        }
        assert(ts@.take(ts.len() as int) =~= ts@);
        out
    }

    /// Whether type variable `id` occurs in `ty` once the substitution is
    /// applied.
    pub fn occurs_in(&self, id: u32, ty: &Ty) -> (b: bool)
        ensures
            b == mentions(apply_view(self.substitution@, self.substitution@.dom().len(), ty_view(*ty)), id),
    {
        let t = self.apply_subst(ty);
        mentions_var(&t, id)
    }

    /// Whether any type variable occurs in `ty`.
    pub fn has_unresolved_type_var(&self, ty: &Ty) -> (b: bool)
        ensures
            b == has_var(ty_view(*ty)),
    {
        contains_var(ty)
    }

    /// The names under which implementations for `ty` are looked up.
    pub fn bound_target_names(&self, ty: &Ty) -> (r: Vec<String>)
        ensures
            views(r@) == targets(ty_view(*ty)),
        decreases ty,
    {
        let name = match ty {
            Ty::Refined(base, _, _) => {
                return self.bound_target_names(base);
            },
            Ty::Named(n) => n.clone(),
            Ty::App(n, _) => n.clone(),
            Ty::I8 => string_of("I8"),
            Ty::I16 => string_of("I16"),
            Ty::I32 => string_of("I32"),
            Ty::I64 => string_of("I64"),
            Ty::U8 => string_of("U8"),
            Ty::U16 => string_of("U16"),
            Ty::U32 => string_of("U32"),
            Ty::U64 => string_of("U64"),
            Ty::F32 => string_of("F32"),
            Ty::F64 => string_of("F64"),
            Ty::Bool => string_of("Bool"),
            Ty::Str => string_of("Str"),
            Ty::Unit => string_of("Unit"),
            Ty::Never => string_of("Never"),
            _ => {
                let r: Vec<String> = Vec::new();
                assert(views(r@) =~= Seq::<Seq<char>>::empty());
                return r;
            },
        };
        let mut r: Vec<String> = Vec::new();
        r.push(name);
        assert(views(r@) =~= targets(ty_view(*ty)));
        r
    }

    /// Fresh type variables for the type parameters, substituted into a
    /// signature: the instantiated parameter types, return type and the
    /// mapping used.
    pub fn instantiate_sig(
        &mut self,
        type_params: &[String],
        param_tys: &[Ty],
        ret_ty: &Ty,
    ) -> (r: (Vec<Ty>, Ty, NameMap<Ty>))
        ensures
            ({
                let m = sig_map(views(type_params@), old(self).next_var());
                &&& mapping_views(r.2@) == m
                &&& tys_view(r.0@) == inst_list(m, tys_view(param_tys@))
                &&& ty_view(r.1) == inst_view(m, ty_view(*ret_ty))
            }),
            final(self).next_var() == advance(old(self).next_var(), type_params@.len()),
            final(self).errors == old(self).errors,
            frame(*old(self), *final(self)),
    {
        let ghost v0 = self.next_var();
        let mut mapping: NameMap<Ty> = NameMap::new();
        let mut i: usize = 0;
        assert(views(type_params@).take(0) =~= Seq::<Seq<char>>::empty());
        assert(mapping_views(mapping@) =~= Map::<Seq<char>, TyV>::empty());
        while i < type_params.len()
            invariant
                i <= type_params@.len(),
                frame(*old(self), *self),
                self.errors == old(self).errors,
                v0 == old(self).next_var(),
                self.next_var() == advance(v0, i as nat),
                mapping_views(mapping@) == sig_map(views(type_params@).take(i as int), v0),
            decreases type_params.len() - i,
        {
            let v = self.fresh_var();
            let ghost before = mapping@;
            mapping.insert(type_params[i].clone(), v);
            assert(views(type_params@).take(i + 1).drop_last() =~= views(type_params@).take(i as int));
            assert(views(type_params@).take(i + 1).last() == type_params@[i as int]@);
            assert(mapping_views(mapping@) =~= mapping_views(before).insert(
                type_params@[i as int]@,
                ty_view(v),
            ));
            i = i + 1;
        }
        assert(views(type_params@).take(type_params.len() as int) =~= views(type_params@));
        let new_params = self.instantiate_tys(param_tys, &mapping);
        let new_ret = self.instantiate_ty(ret_ty, &mapping);
        (new_params, new_ret, mapping)
    }
}

/// Whether variable `id` occurs in `t`.
fn mentions_var(t: &Ty, id: u32) -> (b: bool)
    ensures
        b == mentions(ty_view(*t), id),
    decreases t,
{
    match t {
        Ty::Var(v) => *v == id,
        Ty::App(_, xs) => mentions_var_list(xs.as_slice(), id),
        Ty::Tuple(xs) => mentions_var_list(xs.as_slice(), id),
        Ty::Fn(ps, r, _) => {
            let a = mentions_var_list(ps.as_slice(), id);
            let b = mentions_var(r, id);
            a || b
        },
        Ty::Outcome(a, b) => {
            let x = mentions_var(a, id);
            let y = mentions_var(b, id);
            x || y
        },
        Ty::Record(fields) => {
            let mut found = false;
            let mut i: usize = 0;
            assert(fields@.take(0) =~= Seq::<(String, Ty)>::empty());
            assert(fields_view(fields@.take(0)) =~= Seq::<(Seq<char>, TyV)>::empty());
            #[verifier::loop_isolation(false)]
            while i < fields.len()
                invariant
                    i <= fields@.len(),
                    found == mentions_fields(fields_view(fields@.take(i as int)), id),
                decreases fields.len() - i,
            {
                proof {
                    assert(decreases_to!(*t => fields@[i as int].1));
                }
                let m = mentions_var(&fields[i].1, id);
                found = found || m;
                assert(fields@.take(i + 1).drop_last() =~= fields@.take(i as int));
                assert(fields_view(fields@.take(i + 1)).drop_last() =~= fields_view(
                    fields@.take(i as int),
                ));
                i = i + 1;
            }
            assert(fields@.take(fields.len() as int) =~= fields@);
            found
        },
        Ty::Refined(b, _, _) => mentions_var(b, id),
        _ => false,
    }
}

fn mentions_var_list(xs: &[Ty], id: u32) -> (b: bool)
    ensures
        b == mentions_list(tys_view(xs@), id),
    decreases xs@,
{
    let mut found = false;
    let mut i: usize = 0;
    assert(xs@.take(0) =~= Seq::<Ty>::empty());
    assert(tys_view(xs@.take(0)) =~= Seq::<TyV>::empty());
    while i < xs.len()
        invariant
            i <= xs@.len(),
            found == mentions_list(tys_view(xs@.take(i as int)), id),
        decreases xs.len() - i,
    {
        let m = mentions_var(&xs[i], id);
        found = found || m;
        assert(xs@.take(i + 1).drop_last() =~= xs@.take(i as int));
        assert(tys_view(xs@.take(i + 1)).drop_last() =~= tys_view(xs@.take(i as int)));
        i = i + 1;
    }
    assert(xs@.take(xs.len() as int) =~= xs@);
    found
}

/// Whether any type variable occurs in `t`.
fn contains_var(t: &Ty) -> (b: bool)
    ensures
        b == has_var(ty_view(*t)),
    decreases t,
{
    match t {
        Ty::Var(_) => true,
        Ty::App(_, xs) => contains_var_list(xs.as_slice()),
        Ty::Tuple(xs) => contains_var_list(xs.as_slice()),
        Ty::Fn(ps, r, _) => {
            let a = contains_var_list(ps.as_slice());
            let b = contains_var(r);
            a || b
        },
        Ty::Outcome(a, b) => {
            let x = contains_var(a);
            let y = contains_var(b);
            x || y
        },
        Ty::Record(fields) => {
            let mut found = false;
            let mut i: usize = 0;
            assert(fields@.take(0) =~= Seq::<(String, Ty)>::empty());
            assert(fields_view(fields@.take(0)) =~= Seq::<(Seq<char>, TyV)>::empty());
            #[verifier::loop_isolation(false)]
            while i < fields.len()
                invariant
                    i <= fields@.len(),
                    found == has_var_fields(fields_view(fields@.take(i as int))),
                decreases fields.len() - i,
            {
                proof {
                    assert(decreases_to!(*t => fields@[i as int].1));
                }
                let m = contains_var(&fields[i].1);
                found = found || m;
                assert(fields@.take(i + 1).drop_last() =~= fields@.take(i as int));
                assert(fields_view(fields@.take(i + 1)).drop_last() =~= fields_view(
                    fields@.take(i as int),
                ));
                i = i + 1;
            }
            assert(fields@.take(fields.len() as int) =~= fields@);
            found
        },
        Ty::Refined(b, _, _) => contains_var(b),
        _ => false,
    }
}

fn contains_var_list(xs: &[Ty]) -> (b: bool)
    ensures
        b == has_var_list(tys_view(xs@)),
    decreases xs@,
{
    let mut found = false;
    let mut i: usize = 0;
    assert(xs@.take(0) =~= Seq::<Ty>::empty());
    assert(tys_view(xs@.take(0)) =~= Seq::<TyV>::empty());
    while i < xs.len()
        invariant
            i <= xs@.len(),
            found == has_var_list(tys_view(xs@.take(i as int))),
        decreases xs.len() - i,
    {
        let m = contains_var(&xs[i]);
        found = found || m;
        assert(xs@.take(i + 1).drop_last() =~= xs@.take(i as int));
        assert(tys_view(xs@.take(i + 1)).drop_last() =~= tys_view(xs@.take(i as int)));
        i = i + 1;
    }
    assert(xs@.take(xs.len() as int) =~= xs@);
    found
}

// ---------------------------------------------------------------------------
// Unification
// ---------------------------------------------------------------------------

/// How deep unification may nest: far beyond what any stack holds.
pub open spec fn unify_depth() -> nat {
    u64::MAX as nat
}

pub open spec fn infinite_type_message(id: u32, t: TyV) -> Seq<char> {
    "infinite type: ?T"@ + decimal(id as nat) + " occurs in `"@ + tyv_text(t) + "`"@
}

pub open spec fn effect_mismatch_message(
    ctx: Seq<char>,
    e: TyV,
    a: TyV,
    missing: Set<Seq<char>>,
) -> Seq<char> {
    "function effect mismatch in "@ + ctx + ": expected `"@ + tyv_text(e) + "` but got `"@
        + tyv_text(a) + "` requiring effects ["@ + join_with(sorted_listing(missing), ", "@) + "]"@
}

pub open spec fn missing_field_message(ctx: Seq<char>, name: Seq<char>) -> Seq<char> {
    "type mismatch in "@ + ctx + ": record missing field `"@ + name + "`"@
}

pub open spec fn mismatch_message(ctx: Seq<char>, e: TyV, a: TyV) -> Seq<char> {
    "type mismatch in "@ + ctx + ": expected `"@ + tyv_text(e) + "`, got `"@ + tyv_text(a) + "`"@
}

/// The type of the first field named `name`, if any.
pub open spec fn find_field(fs: Seq<(Seq<char>, TyV)>, name: Seq<char>) -> Option<TyV>
    decreases fs.len(),
{
    if fs.len() == 0 {
        None
    } else if fs[0].0 == name {
        Some(fs[0].1)
    } else {
        find_field(fs.drop_first(), name)
    }
}

/// The base of a refined type.
pub open spec fn refined_base(t: TyV) -> TyV {
    match t {
        TyV::Refined(b, _, _) => *b,
        _ => t,
    }
}

/// Unifying `expected` with `actual` under substitution `s`, nesting at
/// most `depth` deep: the substitution after, and the diagnostics.
///
/// Both types are first resolved through `s`. An error type, equal types,
/// `()` against the empty tuple, a hole, or `Never` as the actual type
/// unify without effect. A variable is bound to the other type unless it
/// occurs in it (an infinite type). Functions of equal arity unify their
/// parameters, then results, then report the effects the actual one needs
/// beyond the expected one; outcomes, applications of one name and arity,
/// and tuples of one length unify part by part; records unify each
/// expected field with the first actual field of that name, reporting
/// missing ones; refinements unify by their bases. Anything else is a
/// mismatch.
pub open spec fn unify_spec(
    depth: nat,
    s: Map<u32, TyV>,
    expected: TyV,
    actual: TyV,
    ctx: Seq<char>,
) -> (Map<u32, TyV>, Diags)
    decreases depth, 0nat, 0nat,
{
    if depth == 0 {
        (s, Seq::empty())
    } else {
        let e = apply_view(s, s.dom().len(), expected);
        let a = apply_view(s, s.dom().len(), actual);
        if e is Error || a is Error {
            (s, Seq::empty())
        } else if ty_same(e, a) {
            (s, Seq::empty())
        } else if (e is Unit && a is Tuple && a->Tuple_0.len() == 0) || (a is Unit && e is Tuple
            && e->Tuple_0.len() == 0) {
            (s, Seq::empty())
        } else if e is Hole || a is Hole {
            (s, Seq::empty())
        } else if a is Never {
            (s, Seq::empty())
        } else if e is Var {
            if mentions(apply_view(s, s.dom().len(), a), e->Var_0) {
                (s, seq![(ErrorCode::E0003, infinite_type_message(e->Var_0, a))])
            } else {
                (s.insert(e->Var_0, a), Seq::empty())
            }
        } else if a is Var {
            if mentions(apply_view(s, s.dom().len(), e), a->Var_0) {
                (s, seq![(ErrorCode::E0003, infinite_type_message(a->Var_0, e))])
            } else {
                (s.insert(a->Var_0, e), Seq::empty())
            }
        } else {
            unify_struct((depth - 1) as nat, s, e, a, ctx)
        }
    }
}

/// Unifying two resolved types that are neither variables nor covered by
/// the early cases, by their structure.
pub open spec fn unify_struct(
    d: nat,
    s: Map<u32, TyV>,
    e: TyV,
    a: TyV,
    ctx: Seq<char>,
) -> (Map<u32, TyV>, Diags)
    decreases d, 3nat, 0nat,
{
    let fallback = if e is Refined {
        unify_spec(d, s, refined_base(e), a, ctx)
    } else if a is Refined {
        unify_spec(d, s, e, refined_base(a), ctx)
    } else {
        (s, seq![(ErrorCode::E0001, mismatch_message(ctx, e, a))])
    };
    match (e, a) {
        (TyV::Fn(p1, r1, c1), TyV::Fn(p2, r2, c2)) => if p1.len() == p2.len() {
            let (s1, d1) = unify_pairs(d, s, p1, p2, ctx);
            let (s2, d2) = unify_spec(d, s1, *r1, *r2, ctx);
            let missing = c2.to_set().difference(c1.to_set());
            if missing.is_empty() {
                (s2, d1 + d2)
            } else {
                (s2, (d1 + d2).push((ErrorCode::F0001, effect_mismatch_message(ctx, e, a, missing))))
            }
        } else {
            fallback
        },
        (TyV::Outcome(s1, f1), TyV::Outcome(s2, f2)) => {
            let (x1, d1) = unify_spec(d, s, *s1, *s2, ctx);
            let (x2, d2) = unify_spec(d, x1, *f1, *f2, ctx);
            (x2, d1 + d2)
        },
        (TyV::App(n1, a1), TyV::App(n2, a2)) => if n1 == n2 && a1.len() == a2.len() {
            unify_pairs(d, s, a1, a2, ctx)
        } else {
            fallback
        },
        (TyV::Tuple(t1), TyV::Tuple(t2)) => if t1.len() == t2.len() {
            unify_pairs(d, s, t1, t2, ctx)
        } else {
            fallback
        },
        (TyV::Record(ef), TyV::Record(af)) => unify_record(d, s, ef, af, ctx),
        (TyV::Refined(b1, _, _), TyV::Refined(b2, _, _)) => unify_spec(d, s, *b1, *b2, ctx),
        _ => fallback,
    }
}

/// Unifying two lists position by position, in order.
pub open spec fn unify_pairs(
    depth: nat,
    s: Map<u32, TyV>,
    xs: Seq<TyV>,
    ys: Seq<TyV>,
    ctx: Seq<char>,
) -> (Map<u32, TyV>, Diags)
    decreases depth, 1nat, xs.len(),
{
    if xs.len() == 0 || ys.len() == 0 {
        (s, Seq::empty())
    } else {
        let (s1, d1) = unify_pairs(depth, s, xs.drop_last(), ys.drop_last(), ctx);
        let (s2, d2) = unify_spec(depth, s1, xs.last(), ys.last(), ctx);
        (s2, d1 + d2)
    }
}

/// Unifying each expected field, in order, with the first actual field of
/// its name; a field the actual record lacks is reported.
pub open spec fn unify_record(
    depth: nat,
    s: Map<u32, TyV>,
    ef: Seq<(Seq<char>, TyV)>,
    af: Seq<(Seq<char>, TyV)>,
    ctx: Seq<char>,
) -> (Map<u32, TyV>, Diags)
    decreases depth, 1nat, ef.len(),
{
    if ef.len() == 0 {
        (s, Seq::empty())
    } else {
        let (s1, d1) = unify_record(depth, s, ef.drop_last(), af, ctx);
        match find_field(af, ef.last().0) {
            Some(aty) => {
                let (s2, d2) = unify_spec(depth, s1, ef.last().1, aty, ctx);
                (s2, d1 + d2)
            },
            None => (s1, d1.push((ErrorCode::E0001, missing_field_message(ctx, ef.last().0)))),
        }
    }
}

/// `b` is `a` with the substitution and diagnostics possibly changed.
/// `b` holds every diagnostic of `a`, unchanged and in place, and
/// possibly more after them.
pub open spec fn keeps_errors(a: Seq<TypeError>, b: Seq<TypeError>) -> bool {
    &&& a.len() <= b.len()
    &&& forall|i: int| 0 <= i < a.len() ==> #[trigger] b[i] == a[i]
}

pub open spec fn unify_frame(a: Checker, b: Checker) -> bool {
    &&& b.registry == a.registry
    &&& b.current_effects == a.current_effects
    &&& b.current_function == a.current_function
    &&& b.observed() == a.observed()
    &&& b.next_var() == a.next_var()
}

impl Checker {
    /// Unifies `expected` with `actual`, binding type variables and
    /// reporting mismatches in `context`.
    pub fn unify(&mut self, expected: &Ty, actual: &Ty, context: &str)
        ensures
            ({
                let (s, d) = unify_spec(
                    unify_depth(),
                    old(self).substitution@,
                    ty_view(*expected),
                    ty_view(*actual),
                    context@,
                );
                &&& final(self).substitution@ == s
                &&& diags(final(self).errors@) == diags(old(self).errors@) + d
            }),
            unify_frame(*old(self), *final(self)),
            keeps_errors(old(self).errors@, final(self).errors@),
    {
        self.unify_at(expected, actual, context, u64::MAX)
    }

    fn mismatch(&mut self, context: &str, e: &Ty, a: &Ty)
        ensures
            diags(final(self).errors@) == diags(old(self).errors@).push(
                (ErrorCode::E0001, mismatch_message(context@, ty_view(*e), ty_view(*a))),
            ),
            final(self).substitution == old(self).substitution,
            unify_frame(*old(self), *final(self)),
            keeps_errors(old(self).errors@, final(self).errors@),
    {
        proof {
            lemma_text_view(*e);
            lemma_text_view(*a);
        }
        let mut message = string_of("type mismatch in ");
        message.append(context);
        message.append(": expected `");
        let et = e.to_string();
        message.append(et.as_str());
        message.append("`, got `");
        let at = a.to_string();
        message.append(at.as_str());
        message.append("`");
        assert(message@ =~= mismatch_message(context@, ty_view(*e), ty_view(*a)));
        self.err(ErrorCode::E0001, message);
    }

    fn infinite_type(&mut self, id: u32, t: &Ty)
        ensures
            diags(final(self).errors@) == diags(old(self).errors@).push(
                (ErrorCode::E0003, infinite_type_message(id, ty_view(*t))),
            ),
            final(self).substitution == old(self).substitution,
            unify_frame(*old(self), *final(self)),
            keeps_errors(old(self).errors@, final(self).errors@),
    {
        proof {
            lemma_text_view(*t);
        }
        let mut message = string_of("infinite type: ?T");
        push_decimal(&mut message, id as u64);
        message.append(" occurs in `");
        let tt = t.to_string();
        message.append(tt.as_str());
        message.append("`");
        assert(message@ =~= infinite_type_message(id, ty_view(*t)));
        self.err(ErrorCode::E0003, message);
    }

    fn unify_at(&mut self, expected: &Ty, actual: &Ty, context: &str, depth: u64)
        ensures
            ({
                let (s, d) = unify_spec(
                    depth as nat,
                    old(self).substitution@,
                    ty_view(*expected),
                    ty_view(*actual),
                    context@,
                );
                &&& final(self).substitution@ == s
                &&& diags(final(self).errors@) == diags(old(self).errors@) + d
            }),
            unify_frame(*old(self), *final(self)),
            keeps_errors(old(self).errors@, final(self).errors@),
        decreases depth, 0nat, 0nat,
    {
        assert(diags(old(self).errors@) + Seq::<(ErrorCode, Seq<char>)>::empty() =~= diags(
            old(self).errors@,
        ));
        if depth == 0 {
            return;
        }
        let e = self.apply_subst(expected);
        let a = self.apply_subst(actual);
        if e.is_error() || a.is_error() {
            return;
        }
        if ty_eq(&e, &a) {
            return;
        }
        proof {
            lemma_tys_view_len(e);
            lemma_tys_view_len(a);
        }
        let unit_vs_empty = match (&e, &a) {
            (Ty::Unit, Ty::Tuple(v)) => v.len() == 0,
            (Ty::Tuple(v), Ty::Unit) => v.len() == 0,
            _ => false,
        };
        if unit_vs_empty {
            return;
        }
        if matches!(e, Ty::Hole(_)) || matches!(a, Ty::Hole(_)) {
            return;
        }
        if matches!(a, Ty::Never) {
            return;
        }
        if let Ty::Var(id) = e {
            if self.occurs_in(id, &a) {
                self.infinite_type(id, &a);
                return;
            }
            self.substitution.insert(id, a);
            return;
        }
        if let Ty::Var(id) = a {
            if self.occurs_in(id, &e) {
                self.infinite_type(id, &e);
                return;
            }
            self.substitution.insert(id, e);
            return;
        }
        self.unify_structural(&e, &a, context, depth - 1);
    }

    /// Unifies two resolved types that are neither variables nor covered by
    /// the early cases, by their structure.
    #[verifier::rlimit(30)]
    fn unify_structural(&mut self, e: &Ty, a: &Ty, context: &str, d: u64)
        ensures
            ({
                let (s, dg) = unify_struct(
                    d as nat,
                    old(self).substitution@,
                    ty_view(*e),
                    ty_view(*a),
                    context@,
                );
                &&& final(self).substitution@ == s
                &&& diags(final(self).errors@) == diags(old(self).errors@) + dg
            }),
            unify_frame(*old(self), *final(self)),
            keeps_errors(old(self).errors@, final(self).errors@),
        decreases d, 3nat, 0nat,
    {
        let ghost s = self.substitution@;
        match (e, a) {
            (Ty::Fn(p1, _, _), Ty::Fn(p2, _, _)) => {
                proof {
                    lemma_tys_view(p1@);
                    lemma_tys_view(p2@);
                }
                if p1.len() == p2.len() {
                    self.unify_fns(e, a, context, d);
                } else {
                    self.unify_fallback(e, a, context, d);
                }
            },
            (Ty::Outcome(s1, f1), Ty::Outcome(s2, f2)) => {
                let ghost x1 = unify_spec(d as nat, s, ty_view(**s1), ty_view(**s2), context@);
                self.unify_at(s1, s2, context, d);
                let ghost x2 = unify_spec(d as nat, x1.0, ty_view(**f1), ty_view(**f2), context@);
                self.unify_at(f1, f2, context, d);
                assert(diags(self.errors@) =~= diags(old(self).errors@) + (x1.1 + x2.1));
            },
            (Ty::App(n1, a1), Ty::App(n2, a2)) => {
                proof {
                    lemma_tys_view(a1@);
                    lemma_tys_view(a2@);
                }
                if str_eq(n1.as_str(), n2.as_str()) && a1.len() == a2.len() {
                    self.unify_pairs(a1.as_slice(), a2.as_slice(), context, d);
                } else {
                    self.unify_fallback(e, a, context, d);
                }
            },
            (Ty::Tuple(t1), Ty::Tuple(t2)) => {
                proof {
                    lemma_tys_view(t1@);
                    lemma_tys_view(t2@);
                }
                if t1.len() == t2.len() {
                    self.unify_pairs(t1.as_slice(), t2.as_slice(), context, d);
                } else {
                    self.unify_fallback(e, a, context, d);
                }
            },
            (Ty::Record(ef), Ty::Record(af)) => {
                self.unify_record_fields(ef.as_slice(), af.as_slice(), context, d);
            },
            (Ty::Refined(b1, _, _), Ty::Refined(b2, _, _)) => {
                self.unify_at(b1, b2, context, d);
            },
            _ => {
                self.unify_fallback(e, a, context, d);
            },
        }
    }

    /// Two functions of equal arity: parameters, then results, then the
    /// effects the actual one needs beyond the expected one.
    fn unify_fns(&mut self, e: &Ty, a: &Ty, context: &str, d: u64)
        requires
            ty_view(*e) is Fn,
            ty_view(*a) is Fn,
            ty_view(*e)->Fn_0.len() == ty_view(*a)->Fn_0.len(),
        ensures
            ({
                let (s, dg) = unify_struct(
                    d as nat,
                    old(self).substitution@,
                    ty_view(*e),
                    ty_view(*a),
                    context@,
                );
                &&& final(self).substitution@ == s
                &&& diags(final(self).errors@) == diags(old(self).errors@) + dg
            }),
            unify_frame(*old(self), *final(self)),
            keeps_errors(old(self).errors@, final(self).errors@),
        decreases d, 2nat, 0nat,
    {
        let ghost s = self.substitution@;
        let ghost ev = ty_view(*e);
        let ghost av = ty_view(*a);
        match (e, a) {
            (Ty::Fn(p1, r1, c1), Ty::Fn(p2, r2, c2)) => {
                proof {
                    lemma_tys_view(p1@);
                    lemma_tys_view(p2@);
                }
                let ghost r1s = unify_pairs(d as nat, s, tys_view(p1@), tys_view(p2@), context@);
                self.unify_pairs(p1.as_slice(), p2.as_slice(), context, d);
                let ghost r2s = unify_spec(d as nat, r1s.0, ty_view(**r1), ty_view(**r2), context@);
                self.unify_at(r1, r2, context, d);
                assert(diags(self.errors@) =~= diags(old(self).errors@) + (r1s.1 + r2s.1));
                let missing = c1.missing_from(c2);
                if missing.len() > 0 {
                    let ghost m = c2@.difference(c1@);
                    proof {
                        assert(sorted(sorted_listing(m)) && sorted_listing(m).to_set() == m);
                        lemma_sorted_unique(views(missing@), sorted_listing(m));
                        lemma_text_view(*e);
                        lemma_text_view(*a);
                        assert(m.contains(views(missing@)[0]));
                    }
                    let mut message = string_of("function effect mismatch in ");
                    message.append(context);
                    message.append(": expected `");
                    let et = e.to_string();
                    message.append(et.as_str());
                    message.append("` but got `");
                    let at = a.to_string();
                    message.append(at.as_str());
                    message.append("` requiring effects [");
                    let list = join_strings(missing.as_slice(), ", ");
                    message.append(list.as_str());
                    message.append("]");
                    assert(message@ =~= effect_mismatch_message(context@, ev, av, m));
                    self.err(ErrorCode::F0001, message);
                    assert(diags(self.errors@) =~= diags(old(self).errors@) + (r1s.1 + r2s.1).push(
                        (ErrorCode::F0001, effect_mismatch_message(context@, ev, av, m)),
                    ));
                } else {
                    proof {
                        assert(views(missing@).to_set() =~= Set::<Seq<char>>::empty());
                        assert(c2@.difference(c1@) =~= Set::<Seq<char>>::empty());
                    }
                }
            },
            _ => {
                proof {
                    assert(false);
                }
            },
        }
    }

    /// What is left once no structural case applies: a refined side
    /// unifies by its base, anything else is a mismatch.
    fn unify_fallback(&mut self, e: &Ty, a: &Ty, context: &str, d: u64)
        ensures
            ({
                let ev = ty_view(*e);
                let av = ty_view(*a);
                let (s, dg) = if ev is Refined {
                    unify_spec(d as nat, old(self).substitution@, refined_base(ev), av, context@)
                } else if av is Refined {
                    unify_spec(d as nat, old(self).substitution@, ev, refined_base(av), context@)
                } else {
                    (old(self).substitution@, seq![(ErrorCode::E0001, mismatch_message(context@, ev, av))])
                };
                &&& final(self).substitution@ == s
                &&& diags(final(self).errors@) == diags(old(self).errors@) + dg
            }),
            unify_frame(*old(self), *final(self)),
            keeps_errors(old(self).errors@, final(self).errors@),
        decreases d, 1nat, 0nat,
    {
        match (e, a) {
            (Ty::Refined(base, _, _), _) => self.unify_at(base, a, context, d),
            (_, Ty::Refined(base, _, _)) => self.unify_at(e, base, context, d),
            _ => {
                self.mismatch(context, e, a);
                assert(diags(self.errors@) =~= diags(old(self).errors@) + seq![
                    (ErrorCode::E0001, mismatch_message(context@, ty_view(*e), ty_view(*a))),
                ]);
            },
        }
    }

    fn unify_pairs(&mut self, xs: &[Ty], ys: &[Ty], context: &str, d: u64)
        requires
            xs@.len() == ys@.len(),
        ensures
            ({
                let (s, dg) = unify_pairs(
                    d as nat,
                    old(self).substitution@,
                    tys_view(xs@),
                    tys_view(ys@),
                    context@,
                );
                &&& final(self).substitution@ == s
                &&& diags(final(self).errors@) == diags(old(self).errors@) + dg
            }),
            unify_frame(*old(self), *final(self)),
            keeps_errors(old(self).errors@, final(self).errors@),
        decreases d, 1nat, xs@.len(),
    {
        let ghost s0 = *self;
        let ghost xv = tys_view(xs@);
        let ghost yv = tys_view(ys@);
        proof {
            lemma_tys_view(xs@);
            lemma_tys_view(ys@);
        }
        let mut i: usize = 0;
        assert(xv.take(0) =~= Seq::<TyV>::empty());
        assert(yv.take(0) =~= Seq::<TyV>::empty());
        assert(diags(self.errors@) =~= diags(s0.errors@) + Seq::empty());
        while i < xs.len()
            invariant
                keeps_errors(s0.errors@, self.errors@),
                i <= xs@.len(),
                xs@.len() == ys@.len(),
                xv == tys_view(xs@),
                yv == tys_view(ys@),
                xv.len() == xs@.len(),
                yv.len() == ys@.len(),
                forall|k: int| 0 <= k < xs@.len() ==> #[trigger] xv[k] == ty_view(xs@[k]),
                forall|k: int| 0 <= k < ys@.len() ==> #[trigger] yv[k] == ty_view(ys@[k]),
                unify_frame(s0, *self),
                ({
                    let (s, dg) = unify_pairs(
                        d as nat,
                        s0.substitution@,
                        xv.take(i as int),
                        yv.take(i as int),
                        context@,
                    );
                    &&& self.substitution@ == s
                    &&& diags(self.errors@) == diags(s0.errors@) + dg
                }),
            decreases xs.len() - i,
        {
            let ghost prior = unify_pairs(
                d as nat,
                s0.substitution@,
                xv.take(i as int),
                yv.take(i as int),
                context@,
            );
            self.unify_at(&xs[i], &ys[i], context, d);
            assert(xv.take(i + 1).drop_last() =~= xv.take(i as int));
            assert(yv.take(i + 1).drop_last() =~= yv.take(i as int));
            let ghost step = unify_spec(d as nat, prior.0, xv[i as int], yv[i as int], context@);
            assert(diags(self.errors@) =~= diags(s0.errors@) + (prior.1 + step.1));
            i = i + 1;
        }
        assert(xv.take(xs.len() as int) =~= xv);
        assert(yv.take(ys.len() as int) =~= yv);
    }

    fn unify_record_fields(
        &mut self,
        ef: &[(String, Ty)],
        af: &[(String, Ty)],
        context: &str,
        d: u64,
    )
        ensures
            ({
                let (s, dg) = unify_record(
                    d as nat,
                    old(self).substitution@,
                    fields_view(ef@),
                    fields_view(af@),
                    context@,
                );
                &&& final(self).substitution@ == s
                &&& diags(final(self).errors@) == diags(old(self).errors@) + dg
            }),
            unify_frame(*old(self), *final(self)),
            keeps_errors(old(self).errors@, final(self).errors@),
        decreases d, 1nat, ef@.len(),
    {
        let ghost s0 = *self;
        let ghost ev = fields_view(ef@);
        let ghost av = fields_view(af@);
        proof {
            lemma_fields_view(ef@);
            lemma_fields_view(af@);
        }
        let mut i: usize = 0;
        assert(ev.take(0) =~= Seq::<(Seq<char>, TyV)>::empty());
        assert(diags(self.errors@) =~= diags(s0.errors@) + Seq::empty());
        while i < ef.len()
            invariant
                keeps_errors(s0.errors@, self.errors@),
                i <= ef@.len(),
                ev == fields_view(ef@),
                av == fields_view(af@),
                ev.len() == ef@.len(),
                av.len() == af@.len(),
                forall|k: int| 0 <= k < ef@.len() ==> #[trigger] ev[k] == (ef@[k].0@, ty_view(ef@[k].1)),
                forall|k: int| 0 <= k < af@.len() ==> #[trigger] av[k] == (af@[k].0@, ty_view(af@[k].1)),
                unify_frame(s0, *self),
                ({
                    let (s, dg) = unify_record(
                        d as nat,
                        s0.substitution@,
                        ev.take(i as int),
                        av,
                        context@,
                    );
                    &&& self.substitution@ == s
                    &&& diags(self.errors@) == diags(s0.errors@) + dg
                }),
            decreases ef.len() - i,
        {
            let ghost prior = unify_record(d as nat, s0.substitution@, ev.take(i as int), av, context@);
            assert(ev.take(i + 1).drop_last() =~= ev.take(i as int));
            assert(ev.take(i + 1).last() == ev[i as int]);
            let name = &ef[i].0;
            let found = find_field_in(af, name.as_str());
            match found {
                Some(j) => {
                    self.unify_at(&ef[i].1, &af[j].1, context, d);
                    let ghost step = unify_spec(d as nat, prior.0, ev[i as int].1, av[j as int].1, context@);
                    assert(diags(self.errors@) =~= diags(s0.errors@) + (prior.1 + step.1));
                },
                None => {
                    let mut message = string_of("type mismatch in ");
                    message.append(context);
                    message.append(": record missing field `");
                    message.append(name.as_str());
                    message.append("`");
                    assert(message@ =~= missing_field_message(context@, ev[i as int].0));
                    self.err(ErrorCode::E0001, message);
                    assert(diags(self.errors@) =~= diags(s0.errors@) + prior.1.push(
                        (ErrorCode::E0001, missing_field_message(context@, ev[i as int].0)),
                    ));
                },
            }
            i = i + 1;
        }
        assert(ev.take(ef.len() as int) =~= ev);
    }
}

/// The position of the first field named `name`.
pub(crate) fn find_field_in(fs: &[(String, Ty)], name: &str) -> (r: Option<usize>)
    ensures
        r matches Some(j) ==> j < fs@.len() && find_field(fields_view(fs@), name@) == Some(
            fields_view(fs@)[j as int].1,
        ),
        r is None ==> find_field(fields_view(fs@), name@) is None,
{
    let ghost fv = fields_view(fs@);
    proof {
        lemma_fields_view(fs@);
    }
    let mut i: usize = 0;
    assert(fv.skip(0) =~= fv);
    while i < fs.len()
        invariant
            i <= fs@.len(),
            fv == fields_view(fs@),
            fv.len() == fs@.len(),
            forall|k: int| 0 <= k < fs@.len() ==> #[trigger] fv[k] == (fs@[k].0@, ty_view(fs@[k].1)),
            find_field(fv, name@) == find_field(fv.skip(i as int), name@),
        decreases fs.len() - i,
    {
        assert(fv.skip(i as int)[0] == fv[i as int]);
        if str_eq(fs[i].0.as_str(), name) {
            assert(find_field(fv.skip(i as int), name@) == Some(fv[i as int].1));
            assert(find_field(fv, name@) == Some(fv[i as int].1));
            assert(i < fs@.len());
            return Some(i);
        }
        assert(fv.skip(i as int).drop_first() =~= fv.skip(i + 1));
        i = i + 1;
    }
    None
}

/// A unit value and an empty tuple: their lists' lengths as seen through
/// their values.
proof fn lemma_tys_view_len(t: Ty)
    ensures
        t matches Ty::Tuple(v) ==> ty_view(t) is Tuple && ty_view(t)->Tuple_0.len() == v@.len(),
{
    if let Ty::Tuple(v) = t {
        lemma_tys_view(v@);
    }
}

// ---------------------------------------------------------------------------
// Exhaustiveness of matches
// ---------------------------------------------------------------------------

/// The variant list `vs` has a field-less variant named `n`.
pub open spec fn unit_variant_in(vs: Seq<(String, Vec<Ty>)>, n: Seq<char>) -> bool {
    exists|i: int| 0 <= i < vs.len() && (#[trigger] vs[i]).0@ == n && vs[i].1@.len() == 0
}

/// Some sum type has a field-less variant named `n`.
pub open spec fn has_unit_variant(types: Map<Seq<char>, Vec<(String, Vec<Ty>)>>, n: Seq<char>) -> bool {
    exists|t: Seq<char>| #[trigger] types.contains_key(t) && unit_variant_in(types[t]@, n)
}

/// An unguarded wildcard, or an unguarded variable that names no
/// field-less variant, matches every value.
pub open spec fn catch_all(types: Map<Seq<char>, Vec<(String, Vec<Ty>)>>, arm: MatchArm) -> bool {
    &&& arm.guard is None
    &&& match arm.pattern {
        Pattern::Wildcard => true,
        Pattern::Var(n) => !has_unit_variant(types, n@),
        _ => false,
    }
}

/// The pattern, or one of its alternatives, is the boolean literal `val`.
pub open spec fn pattern_has_bool(p: Pattern, val: bool) -> bool
    decreases p,
{
    match p {
        Pattern::BoolLit(b) => b == val,
        Pattern::Or(ps) => exists|i: int| 0 <= i < ps@.len() && pattern_has_bool(#[trigger] ps@[i], val),
        _ => false,
    }
}

/// The position of the first name equal to `n`, or -1.
pub open spec fn first_index(names: Seq<Seq<char>>, n: Seq<char>) -> int
    decreases names.len(),
{
    if names.len() == 0 {
        -1
    } else if names[0] == n {
        0
    } else {
        let k = first_index(names.drop_first(), n);
        if k < 0 {
            -1
        } else {
            k + 1
        }
    }
}

/// The pattern covers the variant at position `j`: a constructor or a
/// variable covers the first variant of its name, a wildcard covers all,
/// an or-pattern what any alternative covers.
pub open spec fn marks(p: Pattern, names: Seq<Seq<char>>, j: int) -> bool
    decreases p,
{
    match p {
        Pattern::Constructor(n, _) => first_index(names, n@) == j,
        Pattern::Var(n) => first_index(names, n@) == j,
        Pattern::Wildcard => true,
        Pattern::Or(ps) => exists|i: int| 0 <= i < ps@.len() && marks(#[trigger] ps@[i], names, j),
        _ => false,
    }
}

/// Some arm covers the variant at position `j`.
pub open spec fn covered(arms: Seq<MatchArm>, names: Seq<Seq<char>>, j: int) -> bool {
    exists|k: int| 0 <= k < arms.len() && marks(#[trigger] arms[k].pattern, names, j)
}

/// The variants among the first `m` that no arm covers, in order.
pub open spec fn uncovered(arms: Seq<MatchArm>, names: Seq<Seq<char>>, m: nat) -> Seq<Seq<char>>
    decreases m,
{
    if m == 0 {
        Seq::empty()
    } else if covered(arms, names, m - 1) {
        uncovered(arms, names, (m - 1) as nat)
    } else {
        uncovered(arms, names, (m - 1) as nat).push(names[m - 1])
    }
}

/// The names of a list of variants.
pub open spec fn variant_names(vs: Seq<(String, Vec<Ty>)>) -> Seq<Seq<char>> {
    vs.map_values(|v: (String, Vec<Ty>)| v.0@)
}

/// The diagnostics of the exhaustiveness check of a match on a value of
/// type `t`.
pub open spec fn exhaustiveness_diags(
    types: Map<Seq<char>, Vec<(String, Vec<Ty>)>>,
    t: TyV,
    arms: Seq<MatchArm>,
) -> Diags {
    if t is Error || exists|k: int| 0 <= k < arms.len() && catch_all(types, #[trigger] arms[k]) {
        Seq::empty()
    } else {
        match t {
            TyV::Bool => {
                let has_true = exists|k: int|
                    0 <= k < arms.len() && pattern_has_bool(#[trigger] arms[k].pattern, true);
                let has_false = exists|k: int|
                    0 <= k < arms.len() && pattern_has_bool(#[trigger] arms[k].pattern, false);
                if has_true && has_false {
                    Seq::empty()
                } else {
                    let missing = if !has_true && !has_false {
                        seq!["true"@, "false"@]
                    } else if !has_true {
                        seq!["true"@]
                    } else {
                        seq!["false"@]
                    };
                    seq![(ErrorCode::E0010, "non-exhaustive match: missing pattern(s) "@ + join_with(missing, ", "@))]
                }
            },
            TyV::Named(n) => if types.contains_key(n) {
                let names = variant_names(types[n]@);
                let missing = uncovered(arms, names, names.len());
                if missing.len() == 0 {
                    Seq::empty()
                } else {
                    seq![(ErrorCode::E0010, "non-exhaustive match on `"@ + n + "`: missing variant(s) "@
                        + join_with(missing, ", "@))]
                }
            } else {
                Seq::empty()
            },
            TyV::App(n, _) => if types.contains_key(n) {
                let names = variant_names(types[n]@);
                let missing = uncovered(arms, names, names.len());
                if missing.len() == 0 {
                    Seq::empty()
                } else {
                    seq![(ErrorCode::E0010, "non-exhaustive match on `"@ + tyv_text(t) + "`: missing variant(s) "@
                        + join_with(missing, ", "@))]
                }
            } else {
                Seq::empty()
            },
            TyV::I8 | TyV::I16 | TyV::I32 | TyV::I64 | TyV::U8 | TyV::U16 | TyV::U32 | TyV::U64
            | TyV::F32 | TyV::F64 | TyV::Str => seq![(ErrorCode::E0010, "non-exhaustive match: `"@ + tyv_text(t)
                + "` requires a wildcard `_` or variable pattern"@)],
            _ => Seq::empty(),
        }
    }
}

/// The first sum type, in increasing name order from position `i`, with a
/// field-less variant named `n`.
pub open spec fn first_unit_type_from(reg: TypeRegistry, n: Seq<char>, i: nat) -> Option<Seq<char>>
    decreases reg.types.key_seq().len() - i,
{
    let keys = reg.types.key_seq();
    if i >= keys.len() {
        None
    } else if unit_variant_in(reg.types@[keys[i as int]]@, n) {
        Some(keys[i as int])
    } else {
        first_unit_type_from(reg, n, i + 1)
    }
}

impl Checker {
    /// The name of the first sum type, in increasing name order, with a
    /// field-less variant named `name`, if any.
    pub fn find_unit_variant(&self, name: &str) -> (r: Option<String>)
        ensures
            match r {
                Some(t) => first_unit_type_from(self.registry, name@, 0) == Some(t@),
                None => first_unit_type_from(self.registry, name@, 0) is None,
            },
            r is None <==> !has_unit_variant(self.registry.types@, name@),
            r matches Some(t) ==> self.registry.types@.contains_key(t@) && unit_variant_in(
                self.registry.types@[t@]@,
                name@,
            ),
    {
        let types = &self.registry.types;
        let n = types.len();
        proof { types.lemma_dom(); }
        let mut i: usize = 0;
        #[verifier::loop_isolation(false)]
        while i < n
            invariant
                i <= n,
                n == types.key_seq().len(),
                types@.dom() == types.key_seq().to_set(),
                forall|k: int| 0 <= k < i ==> !unit_variant_in(types@[#[trigger] types.key_seq()[k]]@, name@),
                first_unit_type_from(self.registry, name@, 0) == first_unit_type_from(self.registry, name@, i as nat),
            decreases n - i,
        {
            let variants = types.value_at(i);
            let mut j: usize = 0;
            let mut found = false;
            while j < variants.len()
                invariant
                    j <= variants@.len(),
                    !found ==> forall|k: int| 0 <= k < j ==> !((#[trigger] variants@[k]).0@ == name@ && variants@[k].1@.len() == 0),
                    found ==> unit_variant_in(variants@, name@),
                decreases variants.len() - j,
            {
                if str_eq(variants[j].0.as_str(), name) && variants[j].1.len() == 0 {
                    found = true;
                    assert(unit_variant_in(variants@, name@)) by {
                        assert(variants@[j as int].0@ == name@ && variants@[j as int].1@.len() == 0);
                    }
                }
                j = j + 1;
            }
            if found {
                let t = types.key_at(i).clone();
                proof {
                    assert(types.key_seq().to_set().contains(types.key_seq()[i as int]));
                    assert(types@.contains_key(t@));
                    assert(has_unit_variant(types@, name@));
                }
                return Some(t);
            }
            i = i + 1;
        }
        assert forall|t: Seq<char>| #[trigger] types@.contains_key(t) implies !unit_variant_in(types@[t]@, name@) by {
            assert(types.key_seq().to_set().contains(t));
            let k = choose|k: int| 0 <= k < types.key_seq().len() && types.key_seq()[k] == t;
            assert(!unit_variant_in(types@[types.key_seq()[k]]@, name@));
        }
        None
    }

    /// Reports a match that does not cover every value of its scrutinee:
    /// with no catch-all arm, a boolean needs both literals, a sum type
    /// every variant, and a number or string a catch-all.
    pub fn check_exhaustiveness(&mut self, scrutinee_ty: &Ty, arms: &[MatchArm])
        ensures
            diags(final(self).errors@) == diags(old(self).errors@) + exhaustiveness_diags(
                old(self).registry.types@,
                ty_view(*scrutinee_ty),
                arms@,
            ),
            frame(*old(self), *final(self)),
            final(self).next_var() == old(self).next_var(),
    {
        let ghost types = self.registry.types@;
        let ghost tv = ty_view(*scrutinee_ty);
        assert(diags(old(self).errors@) + Seq::<(ErrorCode, Seq<char>)>::empty() =~= diags(
            old(self).errors@,
        ));
        if scrutinee_ty.is_error() {
            return;
        }
        let mut k: usize = 0;
        let mut has_catch_all = false;
        while k < arms.len()
            invariant
                k <= arms@.len(),
                types == self.registry.types@,
                has_catch_all <==> exists|q: int| 0 <= q < k && catch_all(types, #[trigger] arms@[q]),
            decreases arms.len() - k,
        {
            let arm = &arms[k];
            let is_catch_all = match &arm.pattern {
                Pattern::Wildcard => true,
                Pattern::Var(name) => self.find_unit_variant(name.as_str()).is_none(),
                _ => false,
            };
            if is_catch_all && arm.guard.is_none() {
                has_catch_all = true;
                assert(catch_all(types, arms@[k as int]));
            } else {
                assert(!catch_all(types, arms@[k as int]));
            }
            k = k + 1;
        }
        if has_catch_all {
            return;
        }
        match scrutinee_ty {
            Ty::Bool => {
                let has_true = any_arm_has_bool(arms, true);
                let has_false = any_arm_has_bool(arms, false);
                if !has_true || !has_false {
                    let mut message = string_of("non-exhaustive match: missing pattern(s) ");
                    let mut missing: Vec<String> = Vec::new();
                    if !has_true {
                        missing.push(string_of("true"));
                    }
                    if !has_false {
                        missing.push(string_of("false"));
                    }
                    let list = join_strings(missing.as_slice(), ", ");
                    message.append(list.as_str());
                    proof {
                        if !has_true && !has_false {
                            assert(views(missing@) =~= seq!["true"@, "false"@]);
                        } else if !has_true {
                            assert(views(missing@) =~= seq!["true"@]);
                        } else {
                            assert(views(missing@) =~= seq!["false"@]);
                        }
                    }
                    let ghost m = message@;
                    self.err(ErrorCode::E0010, message);
                    assert(diags(self.errors@) =~= diags(old(self).errors@) + seq![(ErrorCode::E0010, m)]);
                }
            },
            Ty::Named(name) => {
                self.report_missing_variants(name.as_str(), scrutinee_ty, false, arms);
            },
            Ty::App(name, _) => {
                self.report_missing_variants(name.as_str(), scrutinee_ty, true, arms);
            },
            Ty::I8 | Ty::I16 | Ty::I32 | Ty::I64 | Ty::U8 | Ty::U16 | Ty::U32 | Ty::U64 | Ty::F32
            | Ty::F64 | Ty::Str => {
                proof { lemma_text_view(*scrutinee_ty); }
                let mut message = string_of("non-exhaustive match: `");
                let text = scrutinee_ty.to_string();
                message.append(text.as_str());
                message.append("` requires a wildcard `_` or variable pattern");
                let ghost m = message@;
                self.err(ErrorCode::E0010, message);
                assert(diags(self.errors@) =~= diags(old(self).errors@) + seq![(ErrorCode::E0010, m)]);
            },
            _ => {},
        }
    }

    /// The sum type `name` (if registered): reports the variants no arm
    /// covers, naming the type as written or, for an application, as the
    /// scrutinee's type.
    fn report_missing_variants(&mut self, name: &str, scrutinee_ty: &Ty, applied: bool, arms: &[MatchArm])
        requires
            applied ==> (ty_view(*scrutinee_ty) matches TyV::App(n, _) && n == name@),
            !applied ==> ty_view(*scrutinee_ty) == TyV::Named(name@),
        ensures
            ({
                let types = old(self).registry.types@;
                let d = if types.contains_key(name@) {
                    let names = variant_names(types[name@]@);
                    let missing = uncovered(arms@, names, names.len());
                    if missing.len() == 0 {
                        Seq::empty()
                    } else {
                        let shown = if applied { tyv_text(ty_view(*scrutinee_ty)) } else { name@ };
                        seq![(ErrorCode::E0010, "non-exhaustive match on `"@ + shown + "`: missing variant(s) "@
                            + join_with(missing, ", "@))]
                    }
                } else {
                    Seq::empty()
                };
                diags(final(self).errors@) == diags(old(self).errors@) + d
            }),
            frame(*old(self), *final(self)),
            final(self).next_var() == old(self).next_var(),
    {
        assert(diags(old(self).errors@) + Seq::<(ErrorCode, Seq<char>)>::empty() =~= diags(
            old(self).errors@,
        ));
        let names: Vec<String> = match self.registry.types.get(name) {
            Some(variants) => {
                let mut names: Vec<String> = Vec::new();
                let mut i: usize = 0;
                while i < variants.len()
                    invariant
                        i <= variants@.len(),
                        names@.len() == i,
                        forall|k: int| 0 <= k < i ==> (#[trigger] names@[k])@ == variants@[k].0@,
                    decreases variants.len() - i,
                {
                    names.push(variants[i].0.clone());
                    i = i + 1;
                }
                assert(views(names@) =~= variant_names(variants@));
                names
            },
            None => {
                return;
            },
        };
        let ghost nv = views(names@);
        let mut covered_flags: Vec<bool> = Vec::new();
        let mut i: usize = 0;
        while i < names.len()
            invariant
                i <= names@.len(),
                covered_flags@.len() == i,
                forall|j: int| 0 <= j < i ==> !covered_flags@[j],
            decreases names.len() - i,
        {
            covered_flags.push(false);
            i = i + 1;
        }
        let mut k: usize = 0;
        while k < arms.len()
            invariant
                k <= arms@.len(),
                nv == views(names@),
                covered_flags@.len() == names@.len(),
                forall|j: int| 0 <= j < names@.len() ==> (#[trigger] covered_flags@[j]
                    <==> exists|q: int| 0 <= q < k && marks(#[trigger] arms@[q].pattern, nv, j)),
            decreases arms.len() - k,
        {
            mark_covered_variants(&arms[k].pattern, names.as_slice(), &mut covered_flags);
            assert forall|j: int| 0 <= j < names@.len() implies (#[trigger] covered_flags@[j]
                <==> exists|q: int| 0 <= q < k + 1 && marks(#[trigger] arms@[q].pattern, nv, j)) by {
                if covered_flags@[j] && !marks(arms@[k as int].pattern, nv, j) {
                }
                if marks(arms@[k as int].pattern, nv, j) {
                    assert(marks(arms@[k as int].pattern, nv, j));
                }
            }
            k = k + 1;
        }
        let mut missing: Vec<String> = Vec::new();
        let mut m: usize = 0;
        while m < names.len()
            invariant
                m <= names@.len(),
                nv == views(names@),
                covered_flags@.len() == names@.len(),
                forall|j: int| 0 <= j < names@.len() ==> (#[trigger] covered_flags@[j] <==> covered(arms@, nv, j)),
                views(missing@) == uncovered(arms@, nv, m as nat),
            decreases names.len() - m,
        {
            if !covered_flags[m] {
                missing.push(names[m].clone());
            }
            assert(views(missing@) =~= uncovered(arms@, nv, (m + 1) as nat));
            m = m + 1;
        }
        if missing.len() > 0 {
            let mut message = string_of("non-exhaustive match on `");
            if applied {
                proof { lemma_text_view(*scrutinee_ty); }
                let text = scrutinee_ty.to_string();
                message.append(text.as_str());
            } else {
                message.append(name);
            }
            message.append("`: missing variant(s) ");
            let list = join_strings(missing.as_slice(), ", ");
            message.append(list.as_str());
            let ghost msg = message@;
            self.err(ErrorCode::E0010, message);
            assert(diags(self.errors@) =~= diags(old(self).errors@) + seq![(ErrorCode::E0010, msg)]);
        }
    }
}

/// Whether some arm's pattern is, or has as an alternative, the literal
/// `val`.
fn any_arm_has_bool(arms: &[MatchArm], val: bool) -> (b: bool)
    ensures
        b == exists|k: int| 0 <= k < arms@.len() && pattern_has_bool(#[trigger] arms@[k].pattern, val),
{
    let mut k: usize = 0;
    while k < arms.len()
        invariant
            k <= arms@.len(),
            forall|q: int| 0 <= q < k ==> !pattern_has_bool(#[trigger] arms@[q].pattern, val),
        decreases arms.len() - k,
    {
        if pattern_contains_bool(&arms[k].pattern, val) {
            return true;
        }
        k = k + 1;
    }
    false
}

/// Whether the pattern, or one of its alternatives, is the literal `val`.
fn pattern_contains_bool(pattern: &Pattern, val: bool) -> (b: bool)
    ensures
        b == pattern_has_bool(*pattern, val),
    decreases pattern,
{
    match pattern {
        Pattern::BoolLit(b) => *b == val,
        Pattern::Or(pats) => {
            let mut i: usize = 0;
            #[verifier::loop_isolation(false)]
            while i < pats.len()
                invariant
                    i <= pats@.len(),
                    forall|q: int| 0 <= q < i ==> !pattern_has_bool(#[trigger] pats@[q], val),
                decreases pats.len() - i,
            {
                if pattern_contains_bool(&pats[i], val) {
                    return true;
                }
                i = i + 1;
            }
            false
        },
        _ => false,
    }
}

/// The position of the first name equal to `n`.
fn position_of(names: &[String], n: &str) -> (r: Option<usize>)
    ensures
        r matches Some(i) ==> i < names@.len() && first_index(views(names@), n@) == i,
        r is None ==> first_index(views(names@), n@) == -1,
{
    let ghost nv = views(names@);
    let mut i: usize = 0;
    assert(nv.skip(0) =~= nv);
    while i < names.len()
        invariant
            i <= names@.len(),
            nv == views(names@),
            first_index(nv, n@) == if first_index(nv.skip(i as int), n@) < 0 {
                -1
            } else {
                first_index(nv.skip(i as int), n@) + i
            },
        decreases names.len() - i,
    {
        assert(nv.skip(i as int)[0] == nv[i as int]);
        if str_eq(names[i].as_str(), n) {
            return Some(i);
        }
        assert(nv.skip(i as int).drop_first() =~= nv.skip(i + 1));
        i = i + 1;
    }
    None
}

/// Marks the variants the pattern covers.
fn mark_covered_variants(pattern: &Pattern, variant_names: &[String], covered_flags: &mut Vec<bool>)
    requires
        old(covered_flags)@.len() == variant_names@.len(),
    ensures
        final(covered_flags)@.len() == old(covered_flags)@.len(),
        forall|j: int| 0 <= j < old(covered_flags)@.len() ==> (#[trigger] final(covered_flags)@[j]
            == (old(covered_flags)@[j] || marks(*pattern, views(variant_names@), j))),
    decreases pattern,
{
    let ghost nv = views(variant_names@);
    match pattern {
        Pattern::Constructor(name, _) | Pattern::Var(name) => {
            if let Some(idx) = position_of(variant_names, name.as_str()) {
                covered_flags.set(idx, true);
            }
        },
        Pattern::Wildcard => {
            let mut i: usize = 0;
            while i < covered_flags.len()
                invariant
                    i <= covered_flags@.len(),
                    covered_flags@.len() == old(covered_flags)@.len(),
                    forall|j: int| 0 <= j < i ==> #[trigger] covered_flags@[j],
                    forall|j: int| i <= j < covered_flags@.len() ==> #[trigger] covered_flags@[j] == old(covered_flags)@[j],
                decreases covered_flags.len() - i,
            {
                covered_flags.set(i, true);
                i = i + 1;
            }
        },
        Pattern::Or(pats) => {
            let mut i: usize = 0;
            #[verifier::loop_isolation(false)]
            while i < pats.len()
                invariant
                    i <= pats@.len(),
                    covered_flags@.len() == old(covered_flags)@.len(),
                    forall|j: int| 0 <= j < covered_flags@.len() ==> (#[trigger] covered_flags@[j]
                        == (old(covered_flags)@[j] || exists|q: int| 0 <= q < i && marks(#[trigger] pats@[q], nv, j))),
                decreases pats.len() - i,
            {
                let ghost before = covered_flags@;
                mark_covered_variants(&pats[i], variant_names, covered_flags);
                assert forall|j: int| 0 <= j < covered_flags@.len() implies (#[trigger] covered_flags@[j]
                    == (old(covered_flags)@[j] || exists|q: int| 0 <= q < i + 1 && marks(#[trigger] pats@[q], nv, j))) by {
                    if marks(pats@[i as int], nv, j) {
                        assert(exists|q: int| 0 <= q < i + 1 && marks(#[trigger] pats@[q], nv, j));
                    }
                    if exists|q: int| 0 <= q < i + 1 && marks(#[trigger] pats@[q], nv, j) {
                        let q = choose|q: int| 0 <= q < i + 1 && marks(#[trigger] pats@[q], nv, j);
                        if q < i {
                            assert(before[j]);
                        }
                    }
                }
                i = i + 1;
            }
        },
        _ => {},
    }
}

} // verus!
