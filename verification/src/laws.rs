//! Properties of the library as a whole, each stated over the same spec
//! functions and views that the operations' contracts use.

use vstd::prelude::*;
use crate::cost::{
    CostExpr, CostVector, same_cost, spec_add_cost, spec_mul_cost, spec_exceeds_budget, spec_seq,
    spec_constant, spec_is_bounded,
};
use crate::effect_set::{EffectSet, EffectHierarchy, expansion, is_walk, reaches};
use crate::env::{lookup_in, visible};
use crate::hole::{
    with_hole, dependents_in, has_cycle_spec, stuck, fill_order_split, lemma_cycle_iff_stuck,
    is_layering, placed, ready_after, root_set,
};
use crate::platform::{Platform, startup_warnings, main_returning_unit};
use crate::types::{Ty, base_of, is_integer_ty, is_numeric_ty, ty_text};
use crate::synthetic_hole_name;
use crate::ast::Expr;
use crate::hir::HirExpr;
use crate::lower::{Scope, reg, expr_ok, exprs_ok, st_expr, st_exprs};
use crate::ast::TypeExpr;
use crate::types::{TyV, lemma_ty_same_refl};
use crate::budget::{Shape, max_u64, nest, obs_arms, obs_expr, obs_exprs, obs_field_types, obs_fields, obs_handlers, obs_params, obs_select, obs_stmts, obs_type, obs_types};
use crate::cost::sat_add;
use crate::check::{unify_spec, resolve_spec, next_id};

verus! {

// ── Effect sets ─────────────────────────────────────────────────────

/// Combining effects does not depend on the order: `a ∪ b = b ∪ a`.
pub proof fn law_union_commutes(a: EffectSet, b: EffectSet)
    ensures
        a@.union(b@) == b@.union(a@),
{
    assert(a@.union(b@) =~= b@.union(a@));
}

/// Combining effects groups freely: `(a ∪ b) ∪ c = a ∪ (b ∪ c)`.
pub proof fn law_union_associates(a: EffectSet, b: EffectSet, c: EffectSet)
    ensures
        a@.union(b@).union(c@) == a@.union(b@.union(c@)),
{
    assert(a@.union(b@).union(c@) =~= a@.union(b@.union(c@)));
}

/// A caller covers a callee exactly when none of the callee's effects is
/// missing from the caller's.
pub proof fn law_covered_iff_nothing_missing(caller: EffectSet, callee: EffectSet)
    ensures
        callee@.subset_of(caller@) <==> callee@.difference(caller@) == Set::<Seq<char>>::empty(),
{
    if callee@.difference(caller@) == Set::<Seq<char>>::empty() {
        assert forall|x: Seq<char>| callee@.contains(x) implies caller@.contains(x) by {
            assert(!callee@.difference(caller@).contains(x));
        }
    }
    if callee@.subset_of(caller@) {
        assert(callee@.difference(caller@) =~= Set::<Seq<char>>::empty());
    }
}

/// An effect set splits into the part shared with another set and the part
/// missing from it.
pub proof fn law_intersection_and_difference_partition(a: EffectSet, b: EffectSet)
    ensures
        a@.intersect(b@).union(a@.difference(b@)) == a@,
        a@.intersect(b@).disjoint(a@.difference(b@)),
{
    assert(a@.intersect(b@).union(a@.difference(b@)) =~= a@);
}

/// Expanding surfaces is idempotent: the atomic effects of an expansion are
/// the expansion itself.
pub proof fn law_expand_idempotent(h: EffectHierarchy, s: EffectSet)
    ensures
        expansion(h@, expansion(h@, s@)) == expansion(h@, s@),
{
    let g = h@;
    let e = expansion(g, s@);
    assert forall|x: Seq<char>| expansion(g, e).contains(x) implies e.contains(x) by {
        let p = choose|p: Seq<Seq<char>>| #[trigger] is_walk(g, p) && e.contains(p[0]) && p.last() == x;
        if p.len() > 1 {
            assert(g.contains_key(p[0]));
        }
        assert(p[0] == x);
    }
    assert forall|x: Seq<char>| e.contains(x) implies expansion(g, e).contains(x) by {
        let p = seq![x];
        assert(is_walk(g, p));
        assert(reaches(g, e, x));
    }
    assert(expansion(g, e) =~= e);
}

/// Atomic effects (no surface among them) expand to themselves.
pub proof fn law_atomic_effects_expand_to_themselves(h: EffectHierarchy, s: EffectSet)
    requires
        forall|x: Seq<char>| s@.contains(x) ==> !h@.contains_key(x),
    ensures
        expansion(h@, s@) == s@,
{
    let g = h@;
    assert forall|x: Seq<char>| expansion(g, s@).contains(x) implies s@.contains(x) by {
        let p = choose|p: Seq<Seq<char>>| #[trigger] is_walk(g, p) && s@.contains(p[0]) && p.last() == x;
        if p.len() > 1 {
            assert(g.contains_key(p[0]));
        }
        assert(p[0] == x);
    }
    assert forall|x: Seq<char>| s@.contains(x) implies expansion(g, s@).contains(x) by {
        let p = seq![x];
        assert(is_walk(g, p));
        assert(reaches(g, s@, x));
    }
    assert(expansion(g, s@) =~= s@);
}

// ── Cost algebra ────────────────────────────────────────────────────

/// Zero is neutral for addition of costs.
pub proof fn law_add_zero_neutral(e: CostExpr)
    ensures
        spec_add_cost(e, CostExpr::Const(0)) == e,
        spec_add_cost(CostExpr::Const(0), e) == e,
{
}

/// Zero annihilates and one is neutral in products of costs.
pub proof fn law_mul_zero_and_one(e: CostExpr)
    ensures
        spec_mul_cost(e, CostExpr::Const(0)) == CostExpr::Const(0),
        spec_mul_cost(CostExpr::Const(0), e) == CostExpr::Const(0),
        spec_mul_cost(e, CostExpr::Const(1)) == e,
        spec_mul_cost(CostExpr::Const(1), e) == e,
{
}

/// An unbounded cost absorbs any nonzero cost it is added to.
pub proof fn law_unbounded_absorbs_sum(e: CostExpr)
    requires
        e != CostExpr::Const(0),
    ensures
        spec_add_cost(CostExpr::Unbounded, e) == CostExpr::Unbounded,
        spec_add_cost(e, CostExpr::Unbounded) == CostExpr::Unbounded,
{
}

/// Doing nothing first costs nothing: the zero vector is neutral for
/// sequential composition.
pub proof fn law_seq_zero_neutral(v: CostVector)
    ensures
        spec_seq(spec_constant(0, 0, 0, 0), v) == v,
        spec_seq(v, spec_constant(0, 0, 0, 0)) == v,
{
}

/// A sequence is bounded only if both parts are.
pub proof fn law_seq_unbounded_propagates(a: CostVector, b: CostVector)
    requires
        !spec_is_bounded(a),
    ensures
        !spec_is_bounded(spec_seq(a, b)),
{
}

/// Every cost is structurally equal to itself.
pub proof fn law_same_cost_reflexive(e: CostExpr)
    ensures
        same_cost(e, e),
    decreases e,
{
    match e {
        CostExpr::Add(a, b) => {
            law_same_cost_reflexive(*a);
            law_same_cost_reflexive(*b);
        },
        CostExpr::Mul(a, b) => {
            law_same_cost_reflexive(*a);
            law_same_cost_reflexive(*b);
        },
        CostExpr::Pow(a, _) => {
            law_same_cost_reflexive(*a);
        },
        CostExpr::Log(a) => {
            law_same_cost_reflexive(*a);
        },
        CostExpr::Max(a, b) => {
            law_same_cost_reflexive(*a);
            law_same_cost_reflexive(*b);
        },
        CostExpr::Min(a, b) => {
            law_same_cost_reflexive(*a);
            law_same_cost_reflexive(*b);
        },
        _ => {},
    }
}

/// No cost exceeds itself as a budget.
pub proof fn law_budget_irreflexive(e: CostExpr)
    ensures
        !spec_exceeds_budget(e, e),
{
    law_same_cost_reflexive(e);
}

// ── Hole dependency graph ───────────────────────────────────────────

/// Adding a hole that is already there changes nothing.
pub proof fn law_add_hole_idempotent(g: Map<Seq<char>, Set<Seq<char>>>, n: Seq<char>)
    ensures
        with_hole(with_hole(g, n), n) == with_hole(g, n),
{
}

/// `a` depends on `b` exactly when `a` is among the dependents of `b`.
pub proof fn law_dependencies_dependents_dual(g: Map<Seq<char>, Set<Seq<char>>>, a: Seq<char>, b: Seq<char>)
    requires
        g.contains_key(a),
    ensures
        g[a].contains(b) <==> dependents_in(g, b).contains(a),
{
}

/// The dependencies have a cycle exactly when some hole is stuck.
pub proof fn law_cycle_iff_stuck_holes(g: Map<Seq<char>, Set<Seq<char>>>)
    ensures
        has_cycle_spec(g) <==> stuck(g) != Set::<Seq<char>>::empty(),
{
    lemma_cycle_iff_stuck(g);
}

/// Without a cycle, a fill order puts every hole after all its
/// dependencies: the stuck tail is empty.
pub proof fn law_acyclic_fill_order_complete(g: Map<Seq<char>, Set<Seq<char>>>, order: Seq<Seq<char>>, k: int)
    requires
        !has_cycle_spec(g),
        fill_order_split(g, order, k),
    ensures
        k == order.len(),
        forall|i: int, d: Seq<char>| 0 <= i < order.len() && #[trigger] g[order[i]].contains(d) ==> order.take(i).contains(d),
{
    lemma_cycle_iff_stuck(g);
    if k < order.len() {
        assert(order.skip(k).to_set().contains(order.skip(k)[0]));
        assert(stuck(g).contains(order.skip(k)[0]));
    }
}

/// What the first `i` layers place, each later layer places too.
proof fn lemma_placed_grows(layers: Seq<Seq<Seq<char>>>, i: int, j: int)
    requires
        0 <= i <= j <= layers.len(),
    ensures
        placed(layers, i).subset_of(placed(layers, j)),
    decreases j - i,
{
    if i < j {
        lemma_placed_grows(layers, i, j - 1);
    }
}

/// Fill layers never share a hole.
pub proof fn law_layers_disjoint(g: Map<Seq<char>, Set<Seq<char>>>, layers: Seq<Seq<Seq<char>>>, i: int, j: int)
    requires
        is_layering(g, layers),
        0 <= i < j < layers.len(),
    ensures
        layers[i].to_set().disjoint(layers[j].to_set()),
{
    lemma_placed_grows(layers, i + 1, j);
    assert(layers[i].to_set().subset_of(placed(layers, i + 1)));
    assert(layers[j].to_set() == ready_after(g, placed(layers, j)));
}

/// The first fill layer is exactly the holes without dependencies.
pub proof fn law_first_layer_is_roots(g: Map<Seq<char>, Set<Seq<char>>>, layers: Seq<Seq<Seq<char>>>)
    requires
        is_layering(g, layers),
        layers.len() > 0,
    ensures
        layers[0].to_set() == root_set(g),
{
    assert(placed(layers, 0) == Set::<Seq<char>>::empty());
    assert(layers[0].to_set() == ready_after(g, Set::<Seq<char>>::empty()));
    assert forall|x: Seq<char>| ready_after(g, Set::<Seq<char>>::empty()).contains(x) <==> root_set(g).contains(x) by {
        if g.contains_key(x) && g[x].subset_of(Set::<Seq<char>>::empty()) {
            assert(g[x] =~= Set::<Seq<char>>::empty());
        }
    }
    assert(ready_after(g, Set::<Seq<char>>::empty()) =~= root_set(g));
}

// ── Scopes ──────────────────────────────────────────────────────────

/// A name defined in the innermost scope is found with the defined type.
pub proof fn law_lookup_after_define(scopes: Seq<Map<Seq<char>, Ty>>, name: Seq<char>, ty: Ty)
    requires
        scopes.len() > 0,
    ensures
        lookup_in(scopes.update(scopes.len() - 1, scopes.last().insert(name, ty)), name) == Some(ty),
{
    let s2 = scopes.update(scopes.len() - 1, scopes.last().insert(name, ty));
    assert(s2.last() == scopes.last().insert(name, ty));
}

/// Entering a scope, defining in it and leaving it leaves the scopes as they
/// were: inner definitions are forgotten.
pub proof fn law_scope_forgets_inner_definitions(scopes: Seq<Map<Seq<char>, Ty>>, name: Seq<char>, ty: Ty)
    ensures
        ({
            let pushed = scopes.push(Map::empty());
            pushed.update(pushed.len() - 1, pushed.last().insert(name, ty)).drop_last()
        }) == scopes,
{
    let pushed = scopes.push(Map::empty());
    assert(pushed.update(pushed.len() - 1, pushed.last().insert(name, ty)).drop_last() =~= scopes);
}

/// The visible bindings agree with lookup: a name is visible exactly when
/// lookup finds it, with the type lookup gives.
pub proof fn law_visible_agrees_with_lookup(scopes: Seq<Map<Seq<char>, Ty>>, name: Seq<char>)
    ensures
        visible(scopes).contains_key(name) <==> lookup_in(scopes, name) is Some,
        visible(scopes).contains_key(name) ==> lookup_in(scopes, name) == Some(visible(scopes)[name]),
    decreases scopes.len(),
{
    if scopes.len() > 0 {
        law_visible_agrees_with_lookup(scopes.drop_last(), name);
    }
}

// ── Platforms ───────────────────────────────────────────────────────

/// A platform grants a capability exactly when requiring just that
/// capability validates.
pub proof fn law_grant_iff_single_requirement_validates(p: Platform, c: Seq<char>)
    ensures
        p.capabilities@.contains(c) <==> set![c].subset_of(p.capabilities@),
{
    if set![c].subset_of(p.capabilities@) {
        assert(set![c].contains(c));
    }
}

/// Startup validation warns about nothing exactly when the name, the
/// parameter count and the return type all match the contract.
pub proof fn law_startup_clean_iff_matching(p: Platform, name: Seq<char>, count: nat, ret: Seq<char>)
    ensures
        startup_warnings(p, name, count, ret).len() == 0 <==> (name == p.startup_function@
            && count == p.startup_params@.len() && ret == p.startup_return@),
{
}

/// Every built-in platform accepts `main` taking nothing and returning `()`.
pub proof fn law_builtin_startup_accepts_main(p: Platform)
    requires
        main_returning_unit(p),
    ensures
        startup_warnings(p, "main"@, 0, "()"@).len() == 0,
{
}

// ── Types ───────────────────────────────────────────────────────────

/// Stripping refinements leaves no refinement, and stripping twice is
/// stripping once.
pub proof fn law_base_type_idempotent(t: Ty)
    ensures
        !(base_of(t) is Refined),
        base_of(base_of(t)) == base_of(t),
    decreases t,
{
    if let Ty::Refined(b, _, _) = t {
        law_base_type_idempotent(*b);
    }
}

/// Every integer type is numeric.
pub proof fn law_integer_is_numeric(t: Ty)
    requires
        is_integer_ty(t),
    ensures
        is_numeric_ty(t),
{
}

/// A hole the checker named itself is shown as a bare `?`.
pub proof fn law_synthetic_hole_shown_bare(name: String)
    requires
        synthetic_hole_name(name@),
    ensures
        ty_text(Ty::Hole(name)) == "?"@,
{
}

// ── Lowering ────────────────────────────────────────────────────────

/// Registering a name never changes the id of a name already known, and
/// afterwards the registered name is known.
pub proof fn law_registration_keeps_ids(s: Scope, n: Seq<char>, m: Seq<char>)
    ensures
        reg(s, n).names.contains_key(n),
        s.names.contains_key(m) ==> reg(s, n).names.contains_key(m) && reg(s, n).names[m]
            == s.names[m],
{
}

/// While the counter has room, registration keeps ids distinct: if every
/// known name has its own id below the counter, the same holds after
/// registering another name.
pub proof fn law_registration_ids_distinct(s: Scope, n: Seq<char>)
    requires
        s.next < u32::MAX,
        forall|a: Seq<char>| #[trigger] s.names.contains_key(a) ==> s.names[a] < s.next,
        forall|a: Seq<char>, b: Seq<char>|
            #[trigger] s.names.contains_key(a) && #[trigger] s.names.contains_key(b) && a != b
                ==> s.names[a] != s.names[b],
    ensures
        forall|a: Seq<char>|
            #[trigger] reg(s, n).names.contains_key(a) ==> reg(s, n).names[a] < reg(s, n).next,
        forall|a: Seq<char>, b: Seq<char>|
            #[trigger] reg(s, n).names.contains_key(a) && #[trigger] reg(s, n).names.contains_key(
                b,
            ) && a != b ==> reg(s, n).names[a] != reg(s, n).names[b],
{
}

/// A pipe is a call: when lowering the piped value and the function
/// registers no names, `a |> f` lowers exactly as the call `f(a)` does.
pub proof fn law_pipe_lowers_as_call(
    s: Scope,
    a: Box<Expr>,
    f: Box<Expr>,
    args: Vec<Expr>,
    h: HirExpr,
)
    requires
        args@ == seq![*a],
        st_expr(s, *a) == s,
        st_expr(s, *f) == s,
    ensures
        expr_ok(s, Expr::Pipe(a, f), h) == expr_ok(s, Expr::Call(f, args), h),
{
    assert(args@.drop_last() =~= Seq::<Expr>::empty());
    assert(st_exprs(s, args@.drop_last()) == s);
    assert(args@.last() == *a);
    if let HirExpr::Call(hf, hargs) = h {
        if hargs@.len() == 1 {
            assert(hargs@.drop_last() =~= Seq::<HirExpr>::empty());
            assert(exprs_ok(s, args@.drop_last(), hargs@.drop_last()));
            assert(hargs@.last() == hargs@[0]);
            assert(exprs_ok(s, args@, hargs@) == expr_ok(s, *a, hargs@[0]));
            assert(expr_ok(s, Expr::Pipe(a, f), h) == (expr_ok(s, *a, hargs@[0]) && expr_ok(s, *f, *hf)));
            assert(expr_ok(s, Expr::Call(f, args), h) == (expr_ok(s, *f, *hf) && exprs_ok(s, args@, hargs@)));
        } else {
            assert(!exprs_ok(s, args@, hargs@));
        }
    }
}

/// Propagating callee costs changes only entries that were constant: any
/// other entry, and any name without an entry, stays as it was.
pub proof fn law_propagation_keeps_non_constant_entries(
    results: Map<Seq<char>, crate::cost::CostResultView>,
    items: Seq<crate::ast::Item>,
    k: Seq<char>,
)
    requires
        !(results.contains_key(k) && results[k] is Constant),
    ensures
        crate::cost::pass_propagate(results, results, items).contains_key(k) == results.contains_key(k),
        results.contains_key(k) ==> crate::cost::pass_propagate(results, results, items)[k] == results[k],
    decreases items.len(),
{
    if items.len() > 0 {
        law_propagation_keeps_non_constant_entries(results, items.drop_last(), k);
    }
}

/// No function among `items` is named `n`.
pub open spec fn no_function_named(items: Seq<crate::ast::Item>, n: Seq<char>) -> bool {
    forall|j: int| 0 <= j < items.len() ==> (#[trigger] items[j] matches crate::ast::Item::Function(g) ==> g.name@ != n)
}

proof fn lemma_propagation_skips_unnamed(
    results: Map<Seq<char>, crate::cost::CostResultView>,
    items: Seq<crate::ast::Item>,
    n: Seq<char>,
)
    requires
        no_function_named(items, n),
    ensures
        crate::cost::pass_propagate(results, results, items).contains_key(n) == results.contains_key(n),
        results.contains_key(n) ==> crate::cost::pass_propagate(results, results, items)[n] == results[n],
    decreases items.len(),
{
    if items.len() > 0 {
        let pre = items.drop_last();
        assert(no_function_named(pre, n)) by {
            assert forall|j: int| 0 <= j < pre.len() implies (#[trigger] pre[j] matches crate::ast::Item::Function(g) ==> g.name@ != n) by {
                assert(pre[j] == items[j]);
            }
        }
        lemma_propagation_skips_unnamed(results, pre, n);
        assert(items[items.len() - 1] == items.last());
    }
}

/// Propagating callee costs into a constant-cost function `f` with a body
/// (the only function of its name) adds the costs of its callees, other
/// than itself, to its own: a callee with a constant or declared constant
/// cost adds it (saturating), a callee without an entry adds nothing; if
/// any callee has another kind of cost, `f` keeps its own constant.
pub proof fn law_propagation_adds_callee_constants(
    results: Map<Seq<char>, crate::cost::CostResultView>,
    items: Seq<crate::ast::Item>,
    i: int,
    f: crate::ast::FnDef,
    k: u64,
)
    requires
        0 <= i < items.len(),
        items[i] == crate::ast::Item::Function(f),
        f.body is Some,
        results.contains_key(f.name@),
        results[f.name@] == crate::cost::CostResultView::Constant(k),
        forall|j: int| 0 <= j < items.len() && j != i ==> (#[trigger] items[j] matches crate::ast::Item::Function(g) ==> g.name@ != f.name@),
    ensures
        crate::cost::pass_propagate(results, results, items).contains_key(f.name@),
        crate::cost::pass_propagate(results, results, items)[f.name@] == crate::cost::CostResultView::Constant(
            match crate::cost::callee_total(
                results,
                crate::cost::callee_names(f.name@, crate::cost::call_sites(f.body->Some_0)),
                k,
            ) {
                Some(t) => t,
                None => k,
            },
        ),
    decreases items.len(),
{
    let pre = items.drop_last();
    if i == items.len() - 1 {
        assert(no_function_named(pre, f.name@)) by {
            assert forall|j: int| 0 <= j < pre.len() implies (#[trigger] pre[j] matches crate::ast::Item::Function(g) ==> g.name@ != f.name@) by {
                assert(pre[j] == items[j]);
            }
        }
        lemma_propagation_skips_unnamed(results, pre, f.name@);
        assert(items.last() == items[i]);
    } else {
        assert forall|j: int| 0 <= j < pre.len() && j != i implies (#[trigger] pre[j] matches crate::ast::Item::Function(g) ==> g.name@ != f.name@) by {
            assert(pre[j] == items[j]);
        }
        assert(pre[i] == items[i]);
        law_propagation_adds_callee_constants(results, pre, i, f, k);
        assert(items.last() == items[items.len() - 1]);
    }
}

// ── Type inference ──────────────────────────────────────────────────

/// Unifying a type with itself reports nothing and binds nothing.
pub proof fn law_unify_reflexive(
    depth: nat,
    s: Map<u32, TyV>,
    t: TyV,
    ctx: Seq<char>,
)
    ensures
        unify_spec(depth, s, t, t, ctx) == (s, Seq::<(crate::error::ErrorCode, Seq<char>)>::empty()),
{
    if depth > 0 {
        lemma_ty_same_refl(crate::check::apply_view(s, s.dom().len(), t));
    }
}

/// Unifying an expected and an actual type reports nothing and binds
/// nothing when, once resolved, they are equal, either is the error type or
/// a hole, the actual one is `Never` (which fits any expected type), or one
/// is `Unit` and the other the empty tuple.
pub proof fn law_unify_accepts_without_binding(
    s: Map<u32, TyV>,
    expected: TyV,
    actual: TyV,
    ctx: Seq<char>,
)
    requires
        ({
            let e = crate::check::apply_view(s, s.dom().len(), expected);
            let a = crate::check::apply_view(s, s.dom().len(), actual);
            ||| e is Error
            ||| a is Error
            ||| e == a
            ||| e is Hole
            ||| a is Hole
            ||| a is Never
            ||| (e is Unit && a == TyV::Tuple(Seq::empty()))
            ||| (a is Unit && e == TyV::Tuple(Seq::empty()))
        }),
    ensures
        unify_spec(crate::check::unify_depth(), s, expected, actual, ctx) == (
            s,
            Seq::<(crate::error::ErrorCode, Seq<char>)>::empty(),
        ),
{
    let e = crate::check::apply_view(s, s.dom().len(), expected);
    lemma_ty_same_refl(e);
}

/// A wildcard or literal pattern binds no name and leaves the substitution
/// and the variable counter as they were; a wildcard reports nothing.
pub proof fn law_wildcard_and_literal_patterns_bind_nothing(
    reg: crate::env::TypeRegistry,
    st: crate::pattern::Inference,
    p: crate::ast::Pattern,
    t: TyV,
)
    requires
        p is Wildcard || p is IntLit || p is StrLit || p is BoolLit,
    ensures
        crate::pattern::pattern_spec(reg, st, p, t).1 == Seq::<(Seq<char>, TyV)>::empty(),
        crate::pattern::pattern_spec(reg, st, p, t).0.s == st.s,
        crate::pattern::pattern_spec(reg, st, p, t).0.v == st.v,
        p is Wildcard ==> crate::pattern::pattern_spec(reg, st, p, t).0 == st,
{
}

/// Two holes resolved one after the other get two different type
/// variables, while the counter has room.
pub proof fn law_holes_get_distinct_variables(
    al: Map<Seq<char>, TyV>,
    gal: Map<Seq<char>, (Seq<Seq<char>>, TyV)>,
    v: u32,
    first: TypeExpr,
    second: TypeExpr,
)
    requires
        v < u32::MAX,
        first is Hole,
        second is Hole,
    ensures
        resolve_spec(al, gal, v, first).0 != resolve_spec(
            al,
            gal,
            resolve_spec(al, gal, v, first).1,
            second,
        ).0,
{
    assert(resolve_spec(al, gal, v, first).1 == next_id(v));
}


// ── Operators, arguments and matches ────────────────────────────────

/// A call argument counts as structurally decreasing exactly when it
/// subtracts a positive integer literal from a variable; in particular an
/// argument that adds to a variable is unclassified.
pub proof fn law_only_subtraction_of_a_positive_literal_decreases(e: Expr)
    ensures
        crate::cost::spec_classify_arg(e) is Decreasing <==> (e matches Expr::BinOp(l, o, r) && o == crate::ast::BinOp::Sub
            && *l is Var && (*r matches Expr::IntLit(k) && k > 0)),
        (e matches Expr::BinOp(_, o, _) && o == crate::ast::BinOp::Add) ==> crate::cost::spec_classify_arg(e)
            is Other,
        e matches Expr::Var(v) ==> crate::cost::spec_classify_arg(e) == crate::cost::CallArg::Same(v),
{
}

/// The diagnostic a logical operator reports for an operand of type `t`
/// that is not `Bool`.
pub open spec fn logical_operand_error(op: crate::ast::BinOp, t: TyV) -> (crate::error::ErrorCode, Seq<char>) {
    (
        crate::error::ErrorCode::E0002,
        "logical `"@ + crate::expr::binop_name(op) + "` expects Bool"@ + ", got `"@ + crate::types::tyv_text(t)
            + "`"@,
    )
}

/// `&&` and `||` give `Bool`, bind nothing, and report one error for each
/// operand, left then right, that is neither `Bool` nor the error type.
pub proof fn law_logical_operators_need_bool_operands(
    s: Map<u32, TyV>,
    l: TyV,
    op: crate::ast::BinOp,
    r: TyV,
)
    requires
        op == crate::ast::BinOp::And || op == crate::ast::BinOp::Or,
        !(l is Error),
        !(r is Error),
    ensures
        ({
            let (s1, d, t) = crate::expr::binop_spec(s, l, op, r);
            &&& s1 == s
            &&& t == TyV::Bool
            &&& d.len() == (if l is Bool { 0int } else { 1int }) + (if r is Bool { 0int } else { 1int })
            &&& !(l is Bool) ==> d[0] == logical_operand_error(op, l)
            &&& !(r is Bool) ==> d[d.len() - 1] == logical_operand_error(op, r)
        }),
{
    let what = "logical `"@ + crate::expr::binop_name(op) + "` expects Bool"@;
    let dl = crate::expr::operand_diag(l is Bool, what, l);
    let dr = crate::expr::operand_diag(r is Bool, what, r);
    assert(crate::expr::binop_spec(s, l, op, r) == (s, dl + dr, TyV::Bool));
    let d = dl + dr;
    if !(l is Bool) {
        assert(d[0] == dl[0]);
    }
    if !(r is Bool) {
        assert(d[d.len() - 1] == dr[dr.len() - 1]);
    }
}

/// A match on an integer, float or string value is exhaustive only
/// through an unguarded catch-all arm; without one it gets exactly one
/// diagnostic asking for a wildcard or variable pattern. In particular,
/// arms that are all literals never cover such a value.
pub proof fn law_scalar_match_needs_catch_all(
    types: Map<Seq<char>, Vec<(String, Vec<Ty>)>>,
    t: TyV,
    arms: Seq<crate::ast::MatchArm>,
)
    requires
        t is I8 || t is I16 || t is I32 || t is I64 || t is U8 || t is U16 || t is U32 || t is U64
            || t is F32 || t is F64 || t is Str,
    ensures
        (exists|k: int| 0 <= k < arms.len() && crate::check::catch_all(types, #[trigger] arms[k]))
            ==> crate::check::exhaustiveness_diags(types, t, arms).len() == 0,
        !(exists|k: int| 0 <= k < arms.len() && crate::check::catch_all(types, #[trigger] arms[k]))
            ==> crate::check::exhaustiveness_diags(types, t, arms) == seq![
            (
                crate::error::ErrorCode::E0010,
                "non-exhaustive match: `"@ + crate::types::tyv_text(t) + "` requires a wildcard `_` or variable pattern"@,
            ),
        ],
        (forall|k: int| 0 <= k < arms.len() ==> (#[trigger] arms[k]).pattern is IntLit
            || arms[k].pattern is StrLit || arms[k].pattern is BoolLit)
            ==> crate::check::exhaustiveness_diags(types, t, arms).len() == 1,
{
    if forall|k: int| 0 <= k < arms.len() ==> (#[trigger] arms[k]).pattern is IntLit
        || arms[k].pattern is StrLit || arms[k].pattern is BoolLit {
        assert forall|k: int| 0 <= k < arms.len() implies !crate::check::catch_all(types, #[trigger] arms[k]) by {
            assert(arms[k].pattern is IntLit || arms[k].pattern is StrLit || arms[k].pattern is BoolLit);
        }
    }
}

/// The name of a HIR operator.
pub open spec fn hir_binop_name(op: crate::hir::HirBinOp) -> Seq<char> {
    match op {
        crate::hir::HirBinOp::Add => "Add"@,
        crate::hir::HirBinOp::Sub => "Sub"@,
        crate::hir::HirBinOp::Mul => "Mul"@,
        crate::hir::HirBinOp::Div => "Div"@,
        crate::hir::HirBinOp::Mod => "Mod"@,
        crate::hir::HirBinOp::Eq => "Eq"@,
        crate::hir::HirBinOp::Ne => "Ne"@,
        crate::hir::HirBinOp::Lt => "Lt"@,
        crate::hir::HirBinOp::Gt => "Gt"@,
        crate::hir::HirBinOp::Le => "Le"@,
        crate::hir::HirBinOp::Ge => "Ge"@,
        crate::hir::HirBinOp::And => "And"@,
        crate::hir::HirBinOp::Or => "Or"@,
        crate::hir::HirBinOp::BitAnd => "BitAnd"@,
        crate::hir::HirBinOp::BitOr => "BitOr"@,
        crate::hir::HirBinOp::BitXor => "BitXor"@,
        crate::hir::HirBinOp::Shl => "Shl"@,
        crate::hir::HirBinOp::Shr => "Shr"@,
    }
}

/// Lowering keeps each binary operator: the HIR operator has the same
/// name, and no two operators lower to the same one.
pub proof fn law_operator_lowering_keeps_the_operator(a: crate::ast::BinOp, b: crate::ast::BinOp)
    ensures
        hir_binop_name(crate::lower::binop_of(a)) == crate::expr::binop_name(a),
        crate::lower::binop_of(a) == crate::lower::binop_of(b) ==> a == b,
{
}


// ── Effects in budgets ──────────────────────────────────────────────

/// What a shape measure counts: `perform` expressions, calls, holes, or
/// calls of the function whose body it is.
pub enum Counted {
    Performs,
    Calls,
    Holes,
    CallsOf(Seq<char>),
}

/// How many nodes of kind `k` the node `e` itself is (not its parts).
pub open spec fn own(k: Counted, e: Expr) -> nat {
    match k {
        Counted::Performs => if e is Perform { 1 } else { 0 },
        Counted::Calls => if e is Call { 1 } else { 0 },
        Counted::Holes => if e is Hole { 1 } else { 0 },
        Counted::CallsOf(g) => if (e matches Expr::Call(callee, _) && (*callee matches Expr::Var(n) && n@ == g)) {
            1
        } else {
            0
        },
    }
}

/// The measure of a shape that counts nodes of kind `k`.
pub open spec fn measure(k: Counted, s: Shape) -> int {
    match k {
        Counted::Performs => s.effects as int,
        Counted::Calls => s.calls as int,
        Counted::Holes => s.holes as int,
        Counted::CallsOf(_) => s.recursion as int,
    }
}

/// Calls of a named function are counted in that function's own body.
pub open spec fn counts_for(k: Counted, f: Seq<char>) -> bool {
    k matches Counted::CallsOf(g) ==> g == f
}

/// The number of nodes of kind `k` in `e`, nested ones included, in
/// the positions a body's shape looks at (sub-expressions, match guards,
/// statements, handler payloads and arms, and refinement predicates of
/// written types).
pub open spec fn counted_in(k: Counted, e: Expr) -> nat
    decreases e,
{
    match e {
        Expr::Call(callee, args) => own(k, e) + counted_in(k, *callee) + counted_in_exprs(k, args@),
        Expr::Lambda(params, body) => counted_in_params(k, params@) + counted_in(k, *body),
        Expr::BinOp(l, _, r) => counted_in(k, *l) + counted_in(k, *r),
        Expr::Pipe(l, r) => counted_in(k, *l) + counted_in(k, *r),
        Expr::UnaryOp(_, a) => counted_in(k, *a),
        Expr::FieldAccess(a, _) => counted_in(k, *a),
        Expr::Try(a) => counted_in(k, *a),
        Expr::Spawn(a) => counted_in(k, *a),
        Expr::Await(a) => counted_in(k, *a),
        Expr::Return(Some(a)) => counted_in(k, *a),
        Expr::Throw(a) => counted_in(k, *a),
        Expr::If(c, t, el) => counted_in(k, *c) + counted_in(k, *t) + match el {
            Some(x) => counted_in(k, *x),
            None => 0,
        },
        Expr::Match(scrutinee, arms) => counted_in(k, *scrutinee) + counted_in_arms(k, arms@),
        Expr::Block(stmts, tail) => counted_in_stmts(k, stmts@) + match tail {
            Some(t) => counted_in(k, *t),
            None => 0,
        },
        Expr::Hole(_, ty) => own(k, e) + match ty {
            Some(t) => counted_in_type(k, t),
            None => 0,
        },
        Expr::StructLit(_, fields) => counted_in_fields(k, fields@),
        Expr::List(items) => counted_in_exprs(k, items@),
        Expr::ChannelNew { elem_type, buffer } => counted_in_type(k, elem_type) + counted_in(k, *buffer),
        Expr::ParallelScope { lanes, body } => counted_in(k, *body) + match lanes {
            Some(l) => counted_in(k, *l),
            None => 0,
        },
        Expr::Select(arms) => counted_in_select(k, arms@),
        Expr::Perform { args, .. } => own(k, e) + counted_in_exprs(k, args@),
        Expr::Handle { body, handlers } => counted_in(k, *body) + counted_in_handlers(k, handlers@),
        _ => 0,
    }
}

pub open spec fn counted_in_exprs(k: Counted, es: Seq<Expr>) -> nat
    decreases es,
{
    if es.len() == 0 {
        0
    } else {
        counted_in_exprs(k, es.drop_last()) + counted_in(k, es.last())
    }
}

pub open spec fn counted_in_stmts(k: Counted, ss: Seq<crate::ast::Stmt>) -> nat
    decreases ss,
{
    if ss.len() == 0 {
        0
    } else {
        counted_in_stmts(k, ss.drop_last()) + match ss.last() {
            crate::ast::Stmt::Let(_, _, e) => counted_in(k, e),
            crate::ast::Stmt::Expr(e) => counted_in(k, e),
        }
    }
}

pub open spec fn counted_in_arms(k: Counted, arms: Seq<crate::ast::MatchArm>) -> nat
    decreases arms,
{
    if arms.len() == 0 {
        0
    } else {
        counted_in_arms(k, arms.drop_last()) + match arms.last().guard {
            Some(g) => counted_in(k, g),
            None => 0,
        } + counted_in(k, arms.last().body)
    }
}

pub open spec fn counted_in_fields(k: Counted, fs: Seq<(String, Expr)>) -> nat
    decreases fs,
{
    if fs.len() == 0 {
        0
    } else {
        counted_in_fields(k, fs.drop_last()) + counted_in(k, fs.last().1)
    }
}

pub open spec fn counted_in_select(k: Counted, arms: Seq<crate::ast::SelectArm>) -> nat
    decreases arms,
{
    if arms.len() == 0 {
        0
    } else {
        counted_in_select(k, arms.drop_last()) + match arms.last() {
            crate::ast::SelectArm::Recv { source, body, .. } => counted_in(k, source) + counted_in(k, body),
            crate::ast::SelectArm::Timeout { duration, body } => counted_in(k, duration) + counted_in(k, body),
        }
    }
}

pub open spec fn counted_in_handlers(k: Counted, hs: Seq<crate::ast::HandleBinding>) -> nat
    decreases hs,
{
    if hs.len() == 0 {
        0
    } else {
        counted_in_handlers(k, hs.drop_last()) + match hs.last() {
            crate::ast::HandleBinding::Use(payload) => counted_in_fields(k, payload@),
            crate::ast::HandleBinding::On(e) => counted_in(k, e),
        }
    }
}

pub open spec fn counted_in_type(k: Counted, t: TypeExpr) -> nat
    decreases t,
{
    match t {
        TypeExpr::Refinement(_, _, pred) => counted_in(k, *pred),
        TypeExpr::Generic(_, args) => counted_in_types(k, args@),
        TypeExpr::Tuple(args) => counted_in_types(k, args@),
        TypeExpr::Function(params, ret, _) => counted_in_types(k, params@) + counted_in_type(k, *ret),
        TypeExpr::Record(fields) => counted_in_field_types(k, fields@),
        _ => 0,
    }
}

pub open spec fn counted_in_types(k: Counted, ts: Seq<TypeExpr>) -> nat
    decreases ts,
{
    if ts.len() == 0 {
        0
    } else {
        counted_in_types(k, ts.drop_last()) + counted_in_type(k, ts.last())
    }
}

pub open spec fn counted_in_params(k: Counted, ps: Seq<crate::ast::Param>) -> nat
    decreases ps,
{
    if ps.len() == 0 {
        0
    } else {
        counted_in_params(k, ps.drop_last()) + counted_in_type(k, ps.last().ty)
    }
}

pub open spec fn counted_in_field_types(k: Counted, fs: Seq<(String, TypeExpr)>) -> nat
    decreases fs,
{
    if fs.len() == 0 {
        0
    } else {
        counted_in_field_types(k, fs.drop_last()) + counted_in_type(k, fs.last().1)
    }
}

/// The predicate a refinement shares.
pub open spec fn predicate_of(p: std::rc::Rc<Expr>) -> Expr {
    *p
}

/// `x`, or the largest count when `x` exceeds it.
pub open spec fn capped(x: int) -> int {
    if x > u64::MAX { u64::MAX as int } else { x }
}


proof fn lemma_counts_expr(k: Counted, f: Seq<char>, d: u64, s: Shape, e: Expr)
    requires
        counts_for(k, f),
    ensures
        measure(k, obs_expr(f, d, s, e)) == capped(measure(k, s) + counted_in(k, e)),
    decreases e,
{
    match e {
        Expr::Call(callee, args) => {
            let s1 = Shape {
                calls: sat_add(s.calls, 1),
                recursion: if (*callee matches Expr::Var(n) && n@ == f) {
                    sat_add(s.recursion, 1)
                } else {
                    s.recursion
                },
                ..s
            };
            lemma_counts_expr(k, f, d, s1, *callee);
            lemma_counts_exprs(k, f, d, obs_expr(f, d, s1, *callee), args@);
        },
        Expr::Lambda(params, body) => {
            lemma_counts_params(k, f, d, s, params@);
            lemma_counts_expr(k, f, d, obs_params(f, d, s, params@), *body);
        },
        Expr::BinOp(l, _, r) => {
            lemma_counts_expr(k, f, d, s, *l);
            lemma_counts_expr(k, f, d, obs_expr(f, d, s, *l), *r);
        },
        Expr::Pipe(l, r) => {
            lemma_counts_expr(k, f, d, s, *l);
            lemma_counts_expr(k, f, d, obs_expr(f, d, s, *l), *r);
        },
        Expr::UnaryOp(_, a) => lemma_counts_expr(k, f, d, s, *a),
        Expr::FieldAccess(a, _) => lemma_counts_expr(k, f, d, s, *a),
        Expr::Try(a) => lemma_counts_expr(k, f, d, s, *a),
        Expr::Spawn(a) => lemma_counts_expr(k, f, d, Shape { parallelism: sat_add(s.parallelism, 1), ..s }, *a),
        Expr::Await(a) => lemma_counts_expr(k, f, d, s, *a),
        Expr::Return(Some(a)) => lemma_counts_expr(k, f, d, s, *a),
        Expr::Throw(a) => lemma_counts_expr(k, f, d, s, *a),
        Expr::If(c, t, el) => {
            let s1 = nest(Shape { branches: sat_add(s.branches, if el is Some { 2 } else { 1 }), ..s }, d);
            let cd = sat_add(d, 1);
            lemma_counts_expr(k, f, cd, s1, *c);
            let sc = obs_expr(f, cd, s1, *c);
            lemma_counts_expr(k, f, cd, sc, *t);
            let s2 = obs_expr(f, cd, sc, *t);
            match el {
                Some(x) => lemma_counts_expr(k, f, cd, s2, *x),
                None => {},
            }
        },
        Expr::Match(scrutinee, arms) => {
            let s1 = nest(Shape { branches: sat_add(s.branches, arms@.len() as u64), ..s }, d);
            let cd = sat_add(d, 1);
            lemma_counts_expr(k, f, cd, s1, *scrutinee);
            lemma_counts_arms(k, f, cd, obs_expr(f, cd, s1, *scrutinee), arms@);
        },
        Expr::Block(stmts, tail) => {
            lemma_counts_stmts(k, f, d, s, stmts@);
            match tail {
                Some(t) => lemma_counts_expr(k, f, d, obs_stmts(f, d, s, stmts@), *t),
                None => {},
            }
        },
        Expr::Hole(_, ty) => {
            let s1 = Shape { holes: sat_add(s.holes, 1), ..s };
            match ty {
                Some(t) => lemma_counts_type(k, f, d, s1, t),
                None => {},
            }
        },
        Expr::StructLit(_, fields) => lemma_counts_fields(k, f, d, s, fields@),
        Expr::List(items) => lemma_counts_exprs(k, f, d, s, items@),
        Expr::ChannelNew { elem_type, buffer } => {
            lemma_counts_type(k, f, d, s, elem_type);
            lemma_counts_expr(k, f, d, obs_type(f, d, s, elem_type), *buffer);
        },
        Expr::ParallelScope { lanes, body } => {
            let s1 = nest(s, d);
            let cd = sat_add(d, 1);
            let s2 = match lanes {
                Some(l) => {
                    let s3 = if (*l matches Expr::IntLit(k) && k > 0) {
                        Shape { parallelism: max_u64(s1.parallelism, (*l)->IntLit_0 as u64), ..s1 }
                    } else {
                        s1
                    };
                    lemma_counts_expr(k, f, cd, s3, *l);
                    obs_expr(f, cd, s3, *l)
                },
                None => s1,
            };
            lemma_counts_expr(k, f, cd, s2, *body);
        },
        Expr::Select(arms) => {
            let s1 = nest(Shape { branches: sat_add(s.branches, arms@.len() as u64), ..s }, d);
            lemma_counts_select(k, f, sat_add(d, 1), s1, arms@);
        },
        Expr::Perform { args, .. } => {
            lemma_counts_exprs(k, f, d, Shape { effects: sat_add(s.effects, 1), ..s }, args@);
        },
        Expr::Handle { body, handlers } => {
            let cd = sat_add(d, 1);
            lemma_counts_expr(k, f, cd, nest(s, d), *body);
            lemma_counts_handlers(k, f, cd, obs_expr(f, cd, nest(s, d), *body), handlers@);
        },
        _ => {},
    }
}

proof fn lemma_counts_exprs(k: Counted, f: Seq<char>, d: u64, s: Shape, es: Seq<Expr>)
    requires
        counts_for(k, f),
    ensures
        measure(k, obs_exprs(f, d, s, es)) == capped(measure(k, s) + counted_in_exprs(k, es)),
    decreases es,
{
    if es.len() > 0 {
        lemma_counts_exprs(k, f, d, s, es.drop_last());
        lemma_counts_expr(k, f, d, obs_exprs(f, d, s, es.drop_last()), es.last());
    }
}

proof fn lemma_counts_stmts(k: Counted, f: Seq<char>, d: u64, s: Shape, ss: Seq<crate::ast::Stmt>)
    requires
        counts_for(k, f),
    ensures
        measure(k, obs_stmts(f, d, s, ss)) == capped(measure(k, s) + counted_in_stmts(k, ss)),
    decreases ss,
{
    if ss.len() > 0 {
        lemma_counts_stmts(k, f, d, s, ss.drop_last());
        let s1 = obs_stmts(f, d, s, ss.drop_last());
        match ss.last() {
            crate::ast::Stmt::Let(_, _, e) => lemma_counts_expr(k, f, d, s1, e),
            crate::ast::Stmt::Expr(e) => lemma_counts_expr(k, f, d, s1, e),
        }
    }
}

proof fn lemma_counts_arms(k: Counted, f: Seq<char>, d: u64, s: Shape, arms: Seq<crate::ast::MatchArm>)
    requires
        counts_for(k, f),
    ensures
        measure(k, obs_arms(f, d, s, arms)) == capped(measure(k, s) + counted_in_arms(k, arms)),
    decreases arms,
{
    if arms.len() > 0 {
        lemma_counts_arms(k, f, d, s, arms.drop_last());
        let s1 = obs_arms(f, d, s, arms.drop_last());
        let arm = arms.last();
        let s2 = match arm.guard {
            Some(g) => {
                lemma_counts_expr(k, f, d, s1, g);
                obs_expr(f, d, s1, g)
            },
            None => s1,
        };
        lemma_counts_expr(k, f, d, s2, arm.body);
    }
}

proof fn lemma_counts_fields(k: Counted, f: Seq<char>, d: u64, s: Shape, fs: Seq<(String, Expr)>)
    requires
        counts_for(k, f),
    ensures
        measure(k, obs_fields(f, d, s, fs)) == capped(measure(k, s) + counted_in_fields(k, fs)),
    decreases fs,
{
    if fs.len() > 0 {
        lemma_counts_fields(k, f, d, s, fs.drop_last());
        lemma_counts_expr(k, f, d, obs_fields(f, d, s, fs.drop_last()), fs.last().1);
    }
}

proof fn lemma_counts_select(k: Counted, f: Seq<char>, d: u64, s: Shape, arms: Seq<crate::ast::SelectArm>)
    requires
        counts_for(k, f),
    ensures
        measure(k, obs_select(f, d, s, arms)) == capped(measure(k, s) + counted_in_select(k, arms)),
    decreases arms,
{
    if arms.len() > 0 {
        lemma_counts_select(k, f, d, s, arms.drop_last());
        let s1 = obs_select(f, d, s, arms.drop_last());
        match arms.last() {
            crate::ast::SelectArm::Recv { source, body, .. } => {
                lemma_counts_expr(k, f, d, s1, source);
                lemma_counts_expr(k, f, d, obs_expr(f, d, s1, source), body);
            },
            crate::ast::SelectArm::Timeout { duration, body } => {
                lemma_counts_expr(k, f, d, s1, duration);
                lemma_counts_expr(k, f, d, obs_expr(f, d, s1, duration), body);
            },
        }
    }
}

proof fn lemma_counts_handlers(k: Counted, f: Seq<char>, d: u64, s: Shape, hs: Seq<crate::ast::HandleBinding>)
    requires
        counts_for(k, f),
    ensures
        measure(k, obs_handlers(f, d, s, hs)) == capped(measure(k, s) + counted_in_handlers(k, hs)),
    decreases hs,
{
    if hs.len() > 0 {
        lemma_counts_handlers(k, f, d, s, hs.drop_last());
        let s1 = obs_handlers(f, d, s, hs.drop_last());
        match hs.last() {
            crate::ast::HandleBinding::Use(payload) => lemma_counts_fields(k, f, d, s1, payload@),
            crate::ast::HandleBinding::On(e) => lemma_counts_expr(k, f, d, s1, e),
        }
    }
}

proof fn lemma_counts_type(k: Counted, f: Seq<char>, d: u64, s: Shape, t: TypeExpr)
    requires
        counts_for(k, f),
    ensures
        measure(k, obs_type(f, d, s, t)) == capped(measure(k, s) + counted_in_type(k, t)),
    decreases t,
{
    match t {
        TypeExpr::Refinement(_, _, pred) => {
            assert(decreases_to!(t => *pred));
            lemma_counts_expr(k, f, d, s, predicate_of(pred));
        },
        TypeExpr::Generic(_, args) => lemma_counts_types(k, f, d, s, args@),
        TypeExpr::Tuple(args) => lemma_counts_types(k, f, d, s, args@),
        TypeExpr::Function(params, ret, _) => {
            lemma_counts_types(k, f, d, s, params@);
            lemma_counts_type(k, f, d, obs_types(f, d, s, params@), *ret);
        },
        TypeExpr::Record(fields) => lemma_counts_field_types(k, f, d, s, fields@),
        _ => {},
    }
}

proof fn lemma_counts_types(k: Counted, f: Seq<char>, d: u64, s: Shape, ts: Seq<TypeExpr>)
    requires
        counts_for(k, f),
    ensures
        measure(k, obs_types(f, d, s, ts)) == capped(measure(k, s) + counted_in_types(k, ts)),
    decreases ts,
{
    if ts.len() > 0 {
        lemma_counts_types(k, f, d, s, ts.drop_last());
        lemma_counts_type(k, f, d, obs_types(f, d, s, ts.drop_last()), ts.last());
    }
}

proof fn lemma_counts_params(k: Counted, f: Seq<char>, d: u64, s: Shape, ps: Seq<crate::ast::Param>)
    requires
        counts_for(k, f),
    ensures
        measure(k, obs_params(f, d, s, ps)) == capped(measure(k, s) + counted_in_params(k, ps)),
    decreases ps,
{
    if ps.len() > 0 {
        lemma_counts_params(k, f, d, s, ps.drop_last());
        lemma_counts_type(k, f, d, obs_params(f, d, s, ps.drop_last()), ps.last().ty);
    }
}

proof fn lemma_counts_field_types(k: Counted, f: Seq<char>, d: u64, s: Shape, fs: Seq<(String, TypeExpr)>)
    requires
        counts_for(k, f),
    ensures
        measure(k, obs_field_types(f, d, s, fs)) == capped(measure(k, s) + counted_in_field_types(k, fs)),
    decreases fs,
{
    if fs.len() > 0 {
        lemma_counts_field_types(k, f, d, s, fs.drop_last());
        lemma_counts_type(k, f, d, obs_field_types(f, d, s, fs.drop_last()), fs.last().1);
    }
}

/// A body's shape counts nodes: observing an expression raises its
/// `effects` by the number of `perform` expressions in it, its `calls` by
/// the number of calls, its `holes` by the number of holes, and its
/// `recursion` by the number of calls of the function being observed (each
/// up to the largest count). In particular the shape of a function counts
/// the `perform`s, calls, holes and self-calls of its body.
pub proof fn law_shape_counts_nodes(f: Seq<char>, d: u64, s: Shape, e: Expr, func: crate::ast::FnDef)
    ensures
        obs_expr(f, d, s, e).effects == capped(s.effects + counted_in(Counted::Performs, e)),
        obs_expr(f, d, s, e).calls == capped(s.calls + counted_in(Counted::Calls, e)),
        obs_expr(f, d, s, e).holes == capped(s.holes + counted_in(Counted::Holes, e)),
        obs_expr(f, d, s, e).recursion == capped(s.recursion + counted_in(Counted::CallsOf(f), e)),
        func.body matches Some(b) ==> {
            let sh = crate::budget::function_shape(func);
            &&& sh.effects == capped(counted_in(Counted::Performs, b) as int)
            &&& sh.calls == capped(counted_in(Counted::Calls, b) as int)
            &&& sh.holes == capped(counted_in(Counted::Holes, b) as int)
            &&& sh.recursion == capped(counted_in(Counted::CallsOf(func.name@), b) as int)
        },
{
    lemma_counts_expr(Counted::Performs, f, d, s, e);
    lemma_counts_expr(Counted::Calls, f, d, s, e);
    lemma_counts_expr(Counted::Holes, f, d, s, e);
    lemma_counts_expr(Counted::CallsOf(f), f, d, s, e);
    if let Some(b) = func.body {
        let z = crate::budget::no_shape();
        lemma_counts_expr(Counted::Performs, func.name@, 0, z, b);
        lemma_counts_expr(Counted::Calls, func.name@, 0, z, b);
        lemma_counts_expr(Counted::Holes, func.name@, 0, z, b);
        lemma_counts_expr(Counted::CallsOf(func.name@), func.name@, 0, z, b);
    }
}


/// The name of a HIR unary operator.
pub open spec fn hir_unaryop_name(op: crate::hir::HirUnaryOp) -> Seq<char> {
    match op {
        crate::hir::HirUnaryOp::Neg => "Neg"@,
        crate::hir::HirUnaryOp::Not => "Not"@,
        crate::hir::HirUnaryOp::BitNot => "BitNot"@,
    }
}

/// The name of a unary operator.
pub open spec fn unaryop_name(op: crate::ast::UnaryOp) -> Seq<char> {
    match op {
        crate::ast::UnaryOp::Neg => "Neg"@,
        crate::ast::UnaryOp::Not => "Not"@,
        crate::ast::UnaryOp::BitNot => "BitNot"@,
    }
}

/// Lowering keeps each unary operator: same name, and no two operators
/// lower to the same one.
pub proof fn law_unary_lowering_keeps_the_operator(a: crate::ast::UnaryOp, b: crate::ast::UnaryOp)
    ensures
        hir_unaryop_name(crate::lower::unaryop_of(a)) == unaryop_name(a),
        crate::lower::unaryop_of(a) == crate::lower::unaryop_of(b) ==> a == b,
{
}

/// `!` gives `Bool` and complains exactly when its operand is neither
/// `Bool` nor the error type; negation and `~` keep their operand's type
/// and complain exactly when it is not numeric (for `~`, not an integer)
/// and not the error type. At most one diagnostic is reported.
pub proof fn law_unary_operators(op: crate::ast::UnaryOp, t: TyV)
    ensures
        ({
            let (d, r) = crate::typing::unary_spec(op, t);
            &&& d.len() <= 1
            &&& op == crate::ast::UnaryOp::Not ==> r == TyV::Bool && (d.len() == 1 <==> !(t is Bool) && !(t is Error))
            &&& op == crate::ast::UnaryOp::Neg ==> r == t && (d.len() == 1 <==> !crate::expr::is_numeric_v(t) && !(t is Error))
            &&& op == crate::ast::UnaryOp::BitNot ==> r == t && (d.len() == 1 <==> !crate::pattern::is_integer_v(t) && !(t is Error))
            &&& d.len() == 1 ==> d[0].0 == crate::error::ErrorCode::E0002
        }),
{
}

/// Comparisons give `Bool` and unify their operands; bitwise operators keep
/// the left type, bind nothing, and report one error for each operand,
/// left then right, that is not an integer type; an error operand gives
/// the error type with nothing reported.
pub proof fn law_comparison_and_bitwise_operators(s: Map<u32, TyV>, l: TyV, op: crate::ast::BinOp, r: TyV)
    ensures
        (l is Error || r is Error) ==> crate::expr::binop_spec(s, l, op, r) == (
            s,
            Seq::<(crate::error::ErrorCode, Seq<char>)>::empty(),
            TyV::Error,
        ),
        !(l is Error) && !(r is Error) && (op == crate::ast::BinOp::Eq || op == crate::ast::BinOp::Ne
            || op == crate::ast::BinOp::Lt || op == crate::ast::BinOp::Gt || op == crate::ast::BinOp::Le
            || op == crate::ast::BinOp::Ge) ==> {
            let (s1, d, t) = crate::expr::binop_spec(s, l, op, r);
            &&& t == TyV::Bool
            &&& (s1, d) == unify_spec(crate::check::unify_depth(), s, l, r, "comparison operands"@)
        },
        !(l is Error) && !(r is Error) && (op == crate::ast::BinOp::BitAnd || op == crate::ast::BinOp::BitOr
            || op == crate::ast::BinOp::BitXor || op == crate::ast::BinOp::Shl || op == crate::ast::BinOp::Shr) ==> {
            let (s1, d, t) = crate::expr::binop_spec(s, l, op, r);
            &&& s1 == s
            &&& t == l
            &&& d.len() == (if crate::pattern::is_integer_v(l) { 0int } else { 1int }) + (if crate::pattern::is_integer_v(r) {
                0int
            } else {
                1int
            })
        },
{
}

} // verus!
