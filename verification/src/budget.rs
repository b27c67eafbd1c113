//! Realization-shape budget checking: named `budget { ... }` blocks are
//! checked against the shape of the source (branches, nesting, recursion,
//! parallelism, calls, effects, holes) rather than machine resources.

use vstd::prelude::*;
use crate::ast::{Expr, FnDef, HandleBinding, Item, MatchArm, Module, Param, SelectArm, Stmt, TypeExpr, BudgetItem};
use crate::cost::sat_add;
use crate::error::{ErrorCode, TypeError};
use crate::name_map::NameMap;
use crate::text::{decimal, push_decimal, str_eq, string_of};
use crate::ast::Span;

verus! {

/// The shape measures a budget may limit.
pub open spec fn is_builtin_field(f: Seq<char>) -> bool {
    f == "branches"@ || f == "nesting"@ || f == "recursion"@ || f == "parallelism"@ || f == "calls"@
        || f == "effects"@ || f == "holes"@
}

/// The realization shape of a function body. Counts saturate at the
/// largest `u64`.
#[derive(Debug, Clone, Copy, PartialEq, Eq, Structural)]
pub struct Shape {
    pub branches: u64,
    pub nesting: u64,
    pub recursion: u64,
    pub parallelism: u64,
    pub calls: u64,
    pub effects: u64,
    pub holes: u64,
}

/// The empty shape.
pub open spec fn no_shape() -> Shape {
    Shape { branches: 0, nesting: 0, recursion: 0, parallelism: 0, calls: 0, effects: 0, holes: 0 }
}

/// The larger of two counts.
pub open spec fn max_u64(a: u64, b: u64) -> u64 {
    if a >= b { a } else { b }
}

/// The measure a budget field names, if it names one.
pub open spec fn observed_spec(s: Shape, field: Seq<char>) -> Option<u64> {
    if field == "branches"@ {
        Some(s.branches)
    } else if field == "nesting"@ {
        Some(s.nesting)
    } else if field == "recursion"@ {
        Some(s.recursion)
    } else if field == "parallelism"@ {
        Some(s.parallelism)
    } else if field == "calls"@ {
        Some(s.calls)
    } else if field == "effects"@ {
        Some(s.effects)
    } else if field == "holes"@ {
        Some(s.holes)
    } else {
        None
    }
}

/// Entering a nested construct at depth `d`: nesting reaches `d + 1`.
pub open spec fn nest(s: Shape, d: u64) -> Shape {
    Shape { nesting: max_u64(s.nesting, sat_add(d, 1)), ..s }
}

/// The shape after observing `e` at depth `d` inside function `f`, starting
/// from `s`: calls (and calls of `f` itself) are counted, spawns add to
/// parallelism, branches count the arms of `if`/`match`/`select`, nested
/// constructs raise the nesting depth, performs count as effects and holes
/// as holes; sub-expressions and written types are observed in source order.
pub open spec fn obs_expr(f: Seq<char>, d: u64, s: Shape, e: Expr) -> Shape
    decreases e,
{
    match e {
        Expr::Call(callee, args) => {
            let s1 = Shape {
                calls: sat_add(s.calls, 1),
                recursion: if (*callee matches Expr::Var(n) && n@ == f) {
                    sat_add(s.recursion, 1)
                } else {
                    s.recursion
                },
                ..s
            };
            obs_exprs(f, d, obs_expr(f, d, s1, *callee), args@)
        },
        Expr::Lambda(params, body) => obs_expr(f, d, obs_params(f, d, s, params@), *body),
        Expr::BinOp(l, _, r) => obs_expr(f, d, obs_expr(f, d, s, *l), *r),
        Expr::Pipe(l, r) => obs_expr(f, d, obs_expr(f, d, s, *l), *r),
        Expr::UnaryOp(_, a) => obs_expr(f, d, s, *a),
        Expr::FieldAccess(a, _) => obs_expr(f, d, s, *a),
        Expr::Try(a) => obs_expr(f, d, s, *a),
        Expr::Spawn(a) => obs_expr(f, d, Shape { parallelism: sat_add(s.parallelism, 1), ..s }, *a),
        Expr::Await(a) => obs_expr(f, d, s, *a),
        Expr::Return(Some(a)) => obs_expr(f, d, s, *a),
        Expr::Throw(a) => obs_expr(f, d, s, *a),
        Expr::If(c, t, el) => {
            let s1 = nest(Shape { branches: sat_add(s.branches, if el is Some { 2 } else { 1 }), ..s }, d);
            let cd = sat_add(d, 1);
            let s2 = obs_expr(f, cd, obs_expr(f, cd, s1, *c), *t);
            match el {
                Some(x) => obs_expr(f, cd, s2, *x),
                None => s2,
            }
        },
        Expr::Match(scrutinee, arms) => {
            let s1 = nest(Shape { branches: sat_add(s.branches, arms@.len() as u64), ..s }, d);
            let cd = sat_add(d, 1);
            obs_arms(f, cd, obs_expr(f, cd, s1, *scrutinee), arms@)
        },
        Expr::Block(stmts, tail) => {
            let s1 = obs_stmts(f, d, s, stmts@);
            match tail {
                Some(t) => obs_expr(f, d, s1, *t),
                None => s1,
            }
        },
        Expr::Hole(_, ty) => {
            let s1 = Shape { holes: sat_add(s.holes, 1), ..s };
            match ty {
                Some(t) => obs_type(f, d, s1, t),
                None => s1,
            }
        },
        Expr::StructLit(_, fields) => obs_fields(f, d, s, fields@),
        Expr::List(items) => obs_exprs(f, d, s, items@),
        Expr::ChannelNew { elem_type, buffer } => obs_expr(f, d, obs_type(f, d, s, elem_type), *buffer),
        Expr::ParallelScope { lanes, body } => {
            let s1 = nest(s, d);
            let cd = sat_add(d, 1);
            let s2 = match lanes {
                Some(l) => {
                    let s3 = if (*l matches Expr::IntLit(k) && k > 0) {
                        Shape { parallelism: max_u64(s1.parallelism, (*l)->IntLit_0 as u64), ..s1 }
                    } else {
                        s1
                    };
                    obs_expr(f, cd, s3, *l)
                },
                None => s1,
            };
            obs_expr(f, cd, s2, *body)
        },
        Expr::Select(arms) => {
            let s1 = nest(Shape { branches: sat_add(s.branches, arms@.len() as u64), ..s }, d);
            obs_select(f, sat_add(d, 1), s1, arms@)
        },
        Expr::Perform { args, .. } => obs_exprs(f, d, Shape { effects: sat_add(s.effects, 1), ..s }, args@),
        Expr::Handle { body, handlers } => {
            let cd = sat_add(d, 1);
            obs_handlers(f, cd, obs_expr(f, cd, nest(s, d), *body), handlers@)
        },
        _ => s,
    }
}

/// Observing expressions in order.
pub open spec fn obs_exprs(f: Seq<char>, d: u64, s: Shape, es: Seq<Expr>) -> Shape
    decreases es,
{
    if es.len() == 0 {
        s
    } else {
        obs_expr(f, d, obs_exprs(f, d, s, es.drop_last()), es.last())
    }
}

/// Observing statements in order.
pub open spec fn obs_stmts(f: Seq<char>, d: u64, s: Shape, ss: Seq<Stmt>) -> Shape
    decreases ss,
{
    if ss.len() == 0 {
        s
    } else {
        let s1 = obs_stmts(f, d, s, ss.drop_last());
        match ss.last() {
            Stmt::Let(_, _, e) => obs_expr(f, d, s1, e),
            Stmt::Expr(e) => obs_expr(f, d, s1, e),
        }
    }
}

/// Observing match arms in order: each guard, then its body.
pub open spec fn obs_arms(f: Seq<char>, d: u64, s: Shape, arms: Seq<MatchArm>) -> Shape
    decreases arms,
{
    if arms.len() == 0 {
        s
    } else {
        let s1 = obs_arms(f, d, s, arms.drop_last());
        let arm = arms.last();
        let s2 = match arm.guard {
            Some(g) => obs_expr(f, d, s1, g),
            None => s1,
        };
        obs_expr(f, d, s2, arm.body)
    }
}

/// Observing field values in order.
pub open spec fn obs_fields(f: Seq<char>, d: u64, s: Shape, fs: Seq<(String, Expr)>) -> Shape
    decreases fs,
{
    if fs.len() == 0 {
        s
    } else {
        obs_expr(f, d, obs_fields(f, d, s, fs.drop_last()), fs.last().1)
    }
}

/// Observing select arms in order.
pub open spec fn obs_select(f: Seq<char>, d: u64, s: Shape, arms: Seq<SelectArm>) -> Shape
    decreases arms,
{
    if arms.len() == 0 {
        s
    } else {
        let s1 = obs_select(f, d, s, arms.drop_last());
        match arms.last() {
            SelectArm::Recv { source, body, .. } => obs_expr(f, d, obs_expr(f, d, s1, source), body),
            SelectArm::Timeout { duration, body } => obs_expr(f, d, obs_expr(f, d, s1, duration), body),
        }
    }
}

/// Observing handler bindings in order.
pub open spec fn obs_handlers(f: Seq<char>, d: u64, s: Shape, hs: Seq<HandleBinding>) -> Shape
    decreases hs,
{
    if hs.len() == 0 {
        s
    } else {
        let s1 = obs_handlers(f, d, s, hs.drop_last());
        match hs.last() {
            HandleBinding::Use(payload) => obs_fields(f, d, s1, payload@),
            HandleBinding::On(e) => obs_expr(f, d, s1, e),
        }
    }
}

/// Observing a written type: refinement predicates are expressions.
pub open spec fn obs_type(f: Seq<char>, d: u64, s: Shape, t: TypeExpr) -> Shape
    decreases t,
{
    match t {
        TypeExpr::Refinement(_, _, pred) => obs_expr(f, d, s, *pred),
        TypeExpr::Generic(_, args) => obs_types(f, d, s, args@),
        TypeExpr::Tuple(args) => obs_types(f, d, s, args@),
        TypeExpr::Function(params, ret, _) => obs_type(f, d, obs_types(f, d, s, params@), *ret),
        TypeExpr::Record(fields) => obs_field_types(f, d, s, fields@),
        _ => s,
    }
}

/// Observing written types in order.
pub open spec fn obs_types(f: Seq<char>, d: u64, s: Shape, ts: Seq<TypeExpr>) -> Shape
    decreases ts,
{
    if ts.len() == 0 {
        s
    } else {
        obs_type(f, d, obs_types(f, d, s, ts.drop_last()), ts.last())
    }
}

/// Observing parameter types in order.
pub open spec fn obs_params(f: Seq<char>, d: u64, s: Shape, ps: Seq<Param>) -> Shape
    decreases ps,
{
    if ps.len() == 0 {
        s
    } else {
        obs_type(f, d, obs_params(f, d, s, ps.drop_last()), ps.last().ty)
    }
}

/// Observing record field types in order.
pub open spec fn obs_field_types(f: Seq<char>, d: u64, s: Shape, fs: Seq<(String, TypeExpr)>) -> Shape
    decreases fs,
{
    if fs.len() == 0 {
        s
    } else {
        obs_type(f, d, obs_field_types(f, d, s, fs.drop_last()), fs.last().1)
    }
}

/// The shape of a function: that of its body, if it has one.
pub open spec fn function_shape(func: FnDef) -> Shape {
    match func.body {
        Some(b) => obs_expr(func.name@, 0, no_shape(), b),
        None => no_shape(),
    }
}

fn max_count(a: u64, b: u64) -> (r: u64)
    ensures
        r == max_u64(a, b),
{
    if a >= b { a } else { b }
}

fn enter(shape: &mut Shape, depth: u64)
    ensures
        *final(shape) == nest(*old(shape), depth),
{
    shape.nesting = max_count(shape.nesting, depth.saturating_add(1));
}

impl Shape {
    /// The empty shape.
    pub fn new() -> (r: Self)
        ensures
            r == no_shape(),
    {
        Shape { branches: 0, nesting: 0, recursion: 0, parallelism: 0, calls: 0, effects: 0, holes: 0 }
    }

    /// The measure a budget field names, if it names one.
    pub fn observed(self, field: &str) -> (r: Option<u64>)
        ensures
            r == observed_spec(self, field@),
    {
        if str_eq(field, "branches") {
            Some(self.branches)
        } else if str_eq(field, "nesting") {
            Some(self.nesting)
        } else if str_eq(field, "recursion") {
            Some(self.recursion)
        } else if str_eq(field, "parallelism") {
            Some(self.parallelism)
        } else if str_eq(field, "calls") {
            Some(self.calls)
        } else if str_eq(field, "effects") {
            Some(self.effects)
        } else if str_eq(field, "holes") {
            Some(self.holes)
        } else {
            None
        }
    }
}

/// Observe a statement.
fn observe_stmt(stmt: &Stmt, function_name: &str, depth: u64, shape: &mut Shape)
    ensures
        *final(shape) == obs_stmts(function_name@, depth, *old(shape), seq![*stmt]),
    decreases stmt,
{
    let ghost s0 = *shape;
    assert(seq![*stmt].drop_last() =~= Seq::<Stmt>::empty());
    assert(obs_stmts(function_name@, depth, s0, Seq::<Stmt>::empty()) == s0);
    assert(seq![*stmt].last() == *stmt);
    match stmt {
        Stmt::Let(_, _, expr) => observe_expr(expr, function_name, depth, shape),
        Stmt::Expr(expr) => observe_expr(expr, function_name, depth, shape),
    }
}

/// Observe expressions in order.
#[verifier::loop_isolation(false)]
fn observe_exprs(es: &Vec<Expr>, function_name: &str, depth: u64, shape: &mut Shape)
    ensures
        *final(shape) == obs_exprs(function_name@, depth, *old(shape), es@),
    decreases es@,
{
    let ghost s0 = *shape;
    let mut i: usize = 0;
    while i < es.len()
        invariant
            i <= es@.len(),
            *shape == obs_exprs(function_name@, depth, s0, es@.take(i as int)),
        decreases es.len() - i,
    {
        observe_expr(&es[i], function_name, depth, shape);
        assert(es@.take(i + 1).drop_last() =~= es@.take(i as int));
        i = i + 1;
    }
    assert(es@.take(es@.len() as int) =~= es@);
}

/// Observe field values in order.
#[verifier::loop_isolation(false)]
fn observe_fields(fs: &Vec<(String, Expr)>, function_name: &str, depth: u64, shape: &mut Shape)
    ensures
        *final(shape) == obs_fields(function_name@, depth, *old(shape), fs@),
    decreases fs@,
{
    let ghost s0 = *shape;
    let mut i: usize = 0;
    while i < fs.len()
        invariant
            i <= fs@.len(),
            *shape == obs_fields(function_name@, depth, s0, fs@.take(i as int)),
        decreases fs.len() - i,
    {
        observe_expr(&fs[i].1, function_name, depth, shape);
        assert(fs@.take(i + 1).drop_last() =~= fs@.take(i as int));
        i = i + 1;
    }
    assert(fs@.take(fs@.len() as int) =~= fs@);
}

/// Observe statements in order.
#[verifier::loop_isolation(false)]
fn observe_stmts(ss: &Vec<Stmt>, function_name: &str, depth: u64, shape: &mut Shape)
    ensures
        *final(shape) == obs_stmts(function_name@, depth, *old(shape), ss@),
    decreases ss@,
{
    let ghost s0 = *shape;
    let mut i: usize = 0;
    while i < ss.len()
        invariant
            i <= ss@.len(),
            *shape == obs_stmts(function_name@, depth, s0, ss@.take(i as int)),
        decreases ss.len() - i,
    {
        let ghost before = *shape;
        observe_stmt(&ss[i], function_name, depth, shape);
        assert(ss@.take(i + 1).drop_last() =~= ss@.take(i as int));
        assert(ss@.take(i + 1).last() == ss@[i as int]);
        assert(seq![ss@[i as int]].drop_last() =~= Seq::<Stmt>::empty());
        assert(seq![ss@[i as int]].last() == ss@[i as int]);
        assert(obs_stmts(function_name@, depth, before, Seq::<Stmt>::empty()) == before);
        i = i + 1;
    }
    assert(ss@.take(ss@.len() as int) =~= ss@);
}

/// Observe match arms in order.
#[verifier::loop_isolation(false)]
fn observe_arms(arms: &Vec<MatchArm>, function_name: &str, depth: u64, shape: &mut Shape)
    ensures
        *final(shape) == obs_arms(function_name@, depth, *old(shape), arms@),
    decreases arms@,
{
    let ghost s0 = *shape;
    let mut i: usize = 0;
    while i < arms.len()
        invariant
            i <= arms@.len(),
            *shape == obs_arms(function_name@, depth, s0, arms@.take(i as int)),
        decreases arms.len() - i,
    {
        let arm = &arms[i];
        if let Some(guard) = &arm.guard {
            observe_expr(guard, function_name, depth, shape);
        }
        observe_expr(&arm.body, function_name, depth, shape);
        assert(arms@.take(i + 1).drop_last() =~= arms@.take(i as int));
        i = i + 1;
    }
    assert(arms@.take(arms@.len() as int) =~= arms@);
}

/// Observe select arms in order.
#[verifier::loop_isolation(false)]
fn observe_select(arms: &Vec<SelectArm>, function_name: &str, depth: u64, shape: &mut Shape)
    ensures
        *final(shape) == obs_select(function_name@, depth, *old(shape), arms@),
    decreases arms@,
{
    let ghost s0 = *shape;
    let mut i: usize = 0;
    while i < arms.len()
        invariant
            i <= arms@.len(),
            *shape == obs_select(function_name@, depth, s0, arms@.take(i as int)),
        decreases arms.len() - i,
    {
        match &arms[i] {
            SelectArm::Recv { source, body, .. } => {
                observe_expr(source, function_name, depth, shape);
                observe_expr(body, function_name, depth, shape);
            },
            SelectArm::Timeout { duration, body } => {
                observe_expr(duration, function_name, depth, shape);
                observe_expr(body, function_name, depth, shape);
            },
        }
        assert(arms@.take(i + 1).drop_last() =~= arms@.take(i as int));
        i = i + 1;
    }
    assert(arms@.take(arms@.len() as int) =~= arms@);
}

/// Observe handler bindings in order.
#[verifier::loop_isolation(false)]
fn observe_handlers(hs: &Vec<HandleBinding>, function_name: &str, depth: u64, shape: &mut Shape)
    ensures
        *final(shape) == obs_handlers(function_name@, depth, *old(shape), hs@),
    decreases hs@,
{
    let ghost s0 = *shape;
    let mut i: usize = 0;
    while i < hs.len()
        invariant
            i <= hs@.len(),
            *shape == obs_handlers(function_name@, depth, s0, hs@.take(i as int)),
        decreases hs.len() - i,
    {
        match &hs[i] {
            HandleBinding::Use(payload) => observe_fields(payload, function_name, depth, shape),
            HandleBinding::On(e) => observe_expr(e, function_name, depth, shape),
        }
        assert(hs@.take(i + 1).drop_last() =~= hs@.take(i as int));
        i = i + 1;
    }
    assert(hs@.take(hs@.len() as int) =~= hs@);
}

/// Observe written types in order.
#[verifier::loop_isolation(false)]
fn observe_types(ts: &Vec<TypeExpr>, function_name: &str, depth: u64, shape: &mut Shape)
    ensures
        *final(shape) == obs_types(function_name@, depth, *old(shape), ts@),
    decreases ts@,
{
    let ghost s0 = *shape;
    let mut i: usize = 0;
    while i < ts.len()
        invariant
            i <= ts@.len(),
            *shape == obs_types(function_name@, depth, s0, ts@.take(i as int)),
        decreases ts.len() - i,
    {
        observe_type_expr(&ts[i], function_name, depth, shape);
        assert(ts@.take(i + 1).drop_last() =~= ts@.take(i as int));
        i = i + 1;
    }
    assert(ts@.take(ts@.len() as int) =~= ts@);
}

/// Observe parameter types in order.
#[verifier::loop_isolation(false)]
fn observe_params(ps: &Vec<Param>, function_name: &str, depth: u64, shape: &mut Shape)
    ensures
        *final(shape) == obs_params(function_name@, depth, *old(shape), ps@),
    decreases ps@,
{
    let ghost s0 = *shape;
    let mut i: usize = 0;
    while i < ps.len()
        invariant
            i <= ps@.len(),
            *shape == obs_params(function_name@, depth, s0, ps@.take(i as int)),
        decreases ps.len() - i,
    {
        observe_type_expr(&ps[i].ty, function_name, depth, shape);
        assert(ps@.take(i + 1).drop_last() =~= ps@.take(i as int));
        i = i + 1;
    }
    assert(ps@.take(ps@.len() as int) =~= ps@);
}

/// Observe record field types in order.
#[verifier::loop_isolation(false)]
fn observe_field_types(fs: &Vec<(String, TypeExpr)>, function_name: &str, depth: u64, shape: &mut Shape)
    ensures
        *final(shape) == obs_field_types(function_name@, depth, *old(shape), fs@),
    decreases fs@,
{
    let ghost s0 = *shape;
    let mut i: usize = 0;
    while i < fs.len()
        invariant
            i <= fs@.len(),
            *shape == obs_field_types(function_name@, depth, s0, fs@.take(i as int)),
        decreases fs.len() - i,
    {
        observe_type_expr(&fs[i].1, function_name, depth, shape);
        assert(fs@.take(i + 1).drop_last() =~= fs@.take(i as int));
        i = i + 1;
    }
    assert(fs@.take(fs@.len() as int) =~= fs@);
}

/// Observe a written type: the predicates of refinements.
fn observe_type_expr(ty: &TypeExpr, function_name: &str, depth: u64, shape: &mut Shape)
    ensures
        *final(shape) == obs_type(function_name@, depth, *old(shape), *ty),
    decreases ty,
{
    match ty {
        TypeExpr::Refinement(_, _, predicate) => observe_expr(&**predicate, function_name, depth, shape),
        TypeExpr::Generic(_, args) => observe_types(args, function_name, depth, shape),
        TypeExpr::Tuple(args) => observe_types(args, function_name, depth, shape),
        TypeExpr::Function(params, ret, _) => {
            observe_types(params, function_name, depth, shape);
            observe_type_expr(ret, function_name, depth, shape);
        },
        TypeExpr::Record(fields) => observe_field_types(fields, function_name, depth, shape),
        TypeExpr::Named(_) | TypeExpr::Hole(_) => {},
    }
}

/// Observe an expression at nesting depth `depth` inside the function named
/// `function_name`.
fn observe_expr(expr: &Expr, function_name: &str, depth: u64, shape: &mut Shape)
    ensures
        *final(shape) == obs_expr(function_name@, depth, *old(shape), *expr),
    decreases expr,
{
    match expr {
        Expr::Call(callee, args) => {
            shape.calls = shape.calls.saturating_add(1);
            let is_self = match &**callee {
                Expr::Var(name) => str_eq(name.as_str(), function_name),
                _ => false,
            };
            if is_self {
                shape.recursion = shape.recursion.saturating_add(1);
            }
            observe_expr(callee, function_name, depth, shape);
            observe_exprs(args, function_name, depth, shape);
        },
        Expr::Lambda(params, body) => {
            observe_params(params, function_name, depth, shape);
            observe_expr(body, function_name, depth, shape);
        },
        Expr::BinOp(lhs, _, rhs) | Expr::Pipe(lhs, rhs) => {
            observe_expr(lhs, function_name, depth, shape);
            observe_expr(rhs, function_name, depth, shape);
        },
        Expr::Spawn(inner) => {
            shape.parallelism = shape.parallelism.saturating_add(1);
            observe_expr(inner, function_name, depth, shape);
        },
        Expr::UnaryOp(_, inner) | Expr::FieldAccess(inner, _) | Expr::Try(inner) | Expr::Await(inner)
        | Expr::Throw(inner) => {
            observe_expr(inner, function_name, depth, shape);
        },
        Expr::Return(Some(inner)) => {
            observe_expr(inner, function_name, depth, shape);
        },
        Expr::If(cond, then_branch, else_branch) => {
            let add: u64 = if else_branch.is_some() { 2 } else { 1 };
            shape.branches = shape.branches.saturating_add(add);
            enter(shape, depth);
            let child_depth = depth.saturating_add(1);
            observe_expr(cond, function_name, child_depth, shape);
            observe_expr(then_branch, function_name, child_depth, shape);
            if let Some(else_branch) = else_branch {
                observe_expr(else_branch, function_name, child_depth, shape);
            }
        },
        Expr::Match(scrutinee, arms) => {
            shape.branches = shape.branches.saturating_add(arms.len() as u64);
            enter(shape, depth);
            let child_depth = depth.saturating_add(1);
            observe_expr(scrutinee, function_name, child_depth, shape);
            observe_arms(arms, function_name, child_depth, shape);
        },
        Expr::Block(stmts, tail) => {
            observe_stmts(stmts, function_name, depth, shape);
            if let Some(tail) = tail {
                observe_expr(tail, function_name, depth, shape);
            }
        },
        Expr::Hole(_, ty) => {
            shape.holes = shape.holes.saturating_add(1);
            if let Some(ty) = ty {
                observe_type_expr(ty, function_name, depth, shape);
            }
        },
        Expr::StructLit(_, fields) => observe_fields(fields, function_name, depth, shape),
        Expr::List(items) => observe_exprs(items, function_name, depth, shape),
        Expr::ChannelNew { elem_type, buffer } => {
            observe_type_expr(elem_type, function_name, depth, shape);
            observe_expr(buffer, function_name, depth, shape);
        },
        Expr::ParallelScope { lanes, body } => {
            enter(shape, depth);
            let child_depth = depth.saturating_add(1);
            if let Some(lanes) = lanes {
                if let Expr::IntLit(n) = &**lanes {
                    if *n > 0 {
                        shape.parallelism = max_count(shape.parallelism, *n as u64);
                    }
                }
                observe_expr(lanes, function_name, child_depth, shape);
            }
            observe_expr(body, function_name, child_depth, shape);
        },
        Expr::Select(arms) => {
            shape.branches = shape.branches.saturating_add(arms.len() as u64);
            enter(shape, depth);
            observe_select(arms, function_name, depth.saturating_add(1), shape);
        },
        Expr::Perform { args, .. } => {
            shape.effects = shape.effects.saturating_add(1);
            observe_exprs(args, function_name, depth, shape);
        },
        Expr::Handle { body, handlers } => {
            enter(shape, depth);
            let child_depth = depth.saturating_add(1);
            observe_expr(body, function_name, child_depth, shape);
            observe_handlers(handlers, function_name, child_depth, shape);
        },
        _ => {},
    }
}

/// The realization shape of a function's body.
pub fn observe_function(function: &FnDef) -> (s: Shape)
    ensures
        s == function_shape(*function),
{
    let mut shape = Shape::new();
    if let Some(body) = &function.body {
        observe_expr(body, function.name.as_str(), 0, &mut shape);
    }
    shape
}

/// The budget fields in increasing name order.
pub open spec fn field_order() -> Seq<Seq<char>> {
    seq!["branches"@, "calls"@, "effects"@, "holes"@, "nesting"@, "parallelism"@, "recursion"@]
}

/// The limits a budget block sets: for each known field, the last limit
/// written for it.
pub open spec fn budget_limits(items: Seq<BudgetItem>) -> Map<Seq<char>, u64>
    decreases items.len(),
{
    if items.len() == 0 {
        Map::empty()
    } else {
        let m = budget_limits(items.drop_last());
        let it = items.last();
        if is_builtin_field(it.field@) {
            m.insert(it.field@, it.limit)
        } else {
            m
        }
    }
}

/// A diagnostic by code, message and span.
pub open spec fn error_view(e: TypeError) -> (ErrorCode, Seq<char>, Option<Span>) {
    (e.code, e.message@, e.span)
}

/// The unknown-field diagnostics of a budget block, in block order.
pub open spec fn unknown_field_errors(name: Seq<char>, items: Seq<BudgetItem>) -> Seq<(ErrorCode, Seq<char>, Option<Span>)>
    decreases items.len(),
{
    if items.len() == 0 {
        Seq::empty()
    } else {
        let rest = unknown_field_errors(name, items.drop_last());
        let it = items.last();
        if is_builtin_field(it.field@) {
            rest
        } else {
            rest.push((
                ErrorCode::B0102,
                "function `"@ + name + "` declares unknown budget field `"@ + it.field@ + "`"@,
                it.span,
            ))
        }
    }
}

/// The code for exceeding the limit of a field: recursion where none is
/// allowed, too many holes, or any other excess.
pub open spec fn excess_code(field: Seq<char>, limit: u64) -> ErrorCode {
    if field == "recursion"@ && limit == 0 {
        ErrorCode::B0201
    } else if field == "holes"@ {
        ErrorCode::B0202
    } else {
        ErrorCode::B0101
    }
}

/// The excess diagnostics for the fields `fields` in order.
pub open spec fn excess_errors(
    name: Seq<char>,
    limits: Map<Seq<char>, u64>,
    shape: Shape,
    fields: Seq<Seq<char>>,
) -> Seq<(ErrorCode, Seq<char>, Option<Span>)>
    decreases fields.len(),
{
    if fields.len() == 0 {
        Seq::empty()
    } else {
        let rest = excess_errors(name, limits, shape, fields.drop_last());
        let f = fields.last();
        if limits.contains_key(f) && observed_spec(shape, f) is Some && observed_spec(shape, f)->Some_0 > limits[f] {
            rest.push((
                excess_code(f, limits[f]),
                "function `"@ + name + "` exceeds budget `"@ + f + "`: observed "@ + decimal(
                    observed_spec(shape, f)->Some_0 as nat,
                ) + " > limit "@ + decimal(limits[f] as nat),
                None,
            ))
        } else {
            rest
        }
    }
}

/// The budget diagnostics of one function: unknown fields in block order,
/// then exceeded fields in increasing name order.
pub open spec fn function_budget_errors(f: FnDef) -> Seq<(ErrorCode, Seq<char>, Option<Span>)> {
    match f.budget_clause {
        Some(b) => unknown_field_errors(f.name@, b.items@) + excess_errors(
            f.name@,
            budget_limits(b.items@),
            function_shape(f),
            field_order(),
        ),
        None => Seq::empty(),
    }
}

/// The budget diagnostics of the functions among `items`, in order.
pub open spec fn module_budget_errors(items: Seq<Item>) -> Seq<(ErrorCode, Seq<char>, Option<Span>)>
    decreases items.len(),
{
    if items.len() == 0 {
        Seq::empty()
    } else {
        module_budget_errors(items.drop_last()) + match items.last() {
            Item::Function(f) => function_budget_errors(f),
            _ => Seq::empty(),
        }
    }
}

/// Check every function's budget block against the function's shape.
pub fn check_module_budget_errors(module: &Module) -> (r: Vec<TypeError>)
    ensures
        r@.map_values(|e: TypeError| error_view(e)) == module_budget_errors(module.items@),
{
    let mut errors: Vec<TypeError> = Vec::new();
    let mut k: usize = 0;
    while k < module.items.len()
        invariant
            k <= module.items@.len(),
            errors@.map_values(|e: TypeError| error_view(e)) == module_budget_errors(module.items@.take(k as int)),
        decreases module.items.len() - k,
    {
        let ghost before = errors@.map_values(|e: TypeError| error_view(e));
        if let Item::Function(function) = &module.items[k] {
            check_function_budget(function, &mut errors);
        }
        assert(module.items@.take(k + 1).drop_last() =~= module.items@.take(k as int));
        assert(errors@.map_values(|e: TypeError| error_view(e)) =~= module_budget_errors(module.items@.take(k + 1)));
        k = k + 1;
    }
    assert(module.items@.take(module.items@.len() as int) =~= module.items@);
    errors
}

/// Appends the budget diagnostics of one function.
fn check_function_budget(function: &FnDef, errors: &mut Vec<TypeError>)
    ensures
        final(errors)@.map_values(|e: TypeError| error_view(e)) == old(errors)@.map_values(
            |e: TypeError| error_view(e),
        ) + function_budget_errors(*function),
{
    let ghost e0 = errors@.map_values(|e: TypeError| error_view(e));
    let budget = match &function.budget_clause {
        Some(b) => b,
        None => {
            assert(e0 + Seq::<(ErrorCode, Seq<char>, Option<Span>)>::empty() =~= e0);
            return;
        },
    };
    let mut limits: NameMap<u64> = NameMap::new();
    let mut i: usize = 0;
    while i < budget.items.len()
        invariant
            i <= budget.items@.len(),
            limits@ == budget_limits(budget.items@.take(i as int)),
            errors@.map_values(|e: TypeError| error_view(e)) == e0 + unknown_field_errors(
                function.name@,
                budget.items@.take(i as int),
            ),
        decreases budget.items.len() - i,
    {
        let item = &budget.items[i];
        let field = item.field.as_str();
        let known = str_eq(field, "branches") || str_eq(field, "nesting") || str_eq(field, "recursion")
            || str_eq(field, "parallelism") || str_eq(field, "calls") || str_eq(field, "effects")
            || str_eq(field, "holes");
        let ghost before = errors@.map_values(|e: TypeError| error_view(e));
        if !known {
            let mut message = string_of("function `");
            message.append(function.name.as_str());
            message.append("` declares unknown budget field `");
            message.append(field);
            message.append("`");
            let diagnostic = match item.span {
                Some(span) => TypeError::with_span(ErrorCode::B0102, message, span),
                None => TypeError::new(ErrorCode::B0102, message),
            };
            errors.push(diagnostic);
            assert(errors@.map_values(|e: TypeError| error_view(e)) =~= before.push(error_view(diagnostic)));
        } else {
            limits.insert(item.field.clone(), item.limit);
        }
        assert(budget.items@.take(i + 1).drop_last() =~= budget.items@.take(i as int));
        assert(budget.items@.take(i + 1).last() == *item);
        assert(errors@.map_values(|e: TypeError| error_view(e)) =~= e0 + unknown_field_errors(
            function.name@,
            budget.items@.take(i + 1),
        ));
        i = i + 1;
    }
    assert(budget.items@.take(budget.items@.len() as int) =~= budget.items@);
    let ghost e1 = errors@.map_values(|e: TypeError| error_view(e));
    let observed = observe_function(function);
    let order: [&str; 7] = ["branches", "calls", "effects", "holes", "nesting", "parallelism", "recursion"];
    let ghost fields = field_order();
    assert(order@.map_values(|x: &str| x@) =~= fields);
    let mut j: usize = 0;
    while j < 7
        invariant
            j <= 7,
            order@.map_values(|x: &str| x@) == fields,
            fields == field_order(),
            limits@ == budget_limits(budget.items@),
            observed == function_shape(*function),
            errors@.map_values(|e: TypeError| error_view(e)) == e1 + excess_errors(
                function.name@,
                limits@,
                observed,
                fields.take(j as int),
            ),
        decreases 7 - j,
    {
        let field = order[j];
        assert(field@ == fields[j as int]);
        let ghost before = errors@.map_values(|e: TypeError| error_view(e));
        if let Some(limit) = limits.get(field) {
            if let Some(actual) = observed.observed(field) {
                if actual > *limit {
                    let code = if str_eq(field, "recursion") && *limit == 0 {
                        ErrorCode::B0201
                    } else if str_eq(field, "holes") {
                        ErrorCode::B0202
                    } else {
                        ErrorCode::B0101
                    };
                    let mut message = string_of("function `");
                    message.append(function.name.as_str());
                    message.append("` exceeds budget `");
                    message.append(field);
                    message.append("`: observed ");
                    push_decimal(&mut message, actual);
                    message.append(" > limit ");
                    push_decimal(&mut message, *limit);
                    let e = TypeError::new(code, message);
                    errors.push(e);
                    assert(errors@.map_values(|e: TypeError| error_view(e)) =~= before.push(error_view(e)));
                }
            }
        }
        assert(fields.take(j + 1).drop_last() =~= fields.take(j as int));
        assert(fields.take(j + 1).last() == fields[j as int]);
        assert(errors@.map_values(|e: TypeError| error_view(e)) =~= e1 + excess_errors(
            function.name@,
            limits@,
            observed,
            fields.take(j + 1),
        ));
        j = j + 1;
    }
    assert(fields.take(7) =~= fields);
}

/// A limit a function's budget sets.
#[derive(Debug, Clone, PartialEq, Eq)]
pub struct BudgetConstraint {
    pub field: String,
    pub limit: u64,
}

/// An observed measure against its limit: what is left, if anything.
#[derive(Debug, Clone, PartialEq, Eq)]
pub struct BudgetObservation {
    pub field: String,
    pub observed: u64,
    pub remaining: Option<u64>,
}

/// The budget context attached to the holes of a function.
#[derive(Debug, Clone, PartialEq, Eq)]
pub struct BudgetContext {
    pub constraints: Vec<BudgetConstraint>,
    pub observations: Vec<BudgetObservation>,
}

/// The budget context of a function with a budget block: every limit as
/// written, and for each known field its observed measure and what is left
/// of the limit (none when exceeded).
pub fn budget_context(function: &FnDef) -> (r: Option<BudgetContext>)
    ensures
        function.budget_clause is None <==> r is None,
        r matches Some(ctx) ==> ({
            let items = function.budget_clause->Some_0.items@;
            let shape = function_shape(*function);
            &&& ctx.constraints@.len() == items.len()
            &&& forall|i: int| 0 <= i < items.len() ==> (#[trigger] ctx.constraints@[i]).field@ == items[i].field@
                && ctx.constraints@[i].limit == items[i].limit
            &&& ctx.observations@.map_values(|o: BudgetObservation| (o.field@, o.observed, o.remaining))
                == observations_of(items, shape)
        }),
{
    let budget = match &function.budget_clause {
        Some(b) => b,
        None => return None,
    };
    let observed = observe_function(function);
    let mut constraints: Vec<BudgetConstraint> = Vec::new();
    let mut observations: Vec<BudgetObservation> = Vec::new();
    let ghost items = budget.items@;
    let mut i: usize = 0;
    while i < budget.items.len()
        invariant
            items == budget.items@,
            observed == function_shape(*function),
            i <= items.len(),
            constraints@.len() == i,
            forall|k: int| 0 <= k < i ==> (#[trigger] constraints@[k]).field@ == items[k].field@
                && constraints@[k].limit == items[k].limit,
            observations@.map_values(|o: BudgetObservation| (o.field@, o.observed, o.remaining))
                == observations_of(items.take(i as int), observed),
        decreases budget.items.len() - i,
    {
        let item = &budget.items[i];
        constraints.push(BudgetConstraint { field: item.field.clone(), limit: item.limit });
        let ghost before = observations@.map_values(|o: BudgetObservation| (o.field@, o.observed, o.remaining));
        if let Some(actual) = observed.observed(item.field.as_str()) {
            let remaining = item.limit.checked_sub(actual);
            let o = BudgetObservation { field: item.field.clone(), observed: actual, remaining };
            observations.push(o);
            assert(observations@.map_values(|o: BudgetObservation| (o.field@, o.observed, o.remaining))
                =~= before.push((o.field@, o.observed, o.remaining)));
        }
        assert(items.take(i + 1).drop_last() =~= items.take(i as int));
        assert(items.take(i + 1).last() == *item);
        i = i + 1;
    }
    assert(items.take(items.len() as int) =~= items);
    Some(BudgetContext { constraints, observations })
}

/// The observations for the known fields among `items`, in order: the
/// field, the observed measure, and the limit left over (none when
/// exceeded).
pub open spec fn observations_of(items: Seq<BudgetItem>, shape: Shape) -> Seq<(Seq<char>, u64, Option<u64>)>
    decreases items.len(),
{
    if items.len() == 0 {
        Seq::empty()
    } else {
        let rest = observations_of(items.drop_last(), shape);
        let it = items.last();
        match observed_spec(shape, it.field@) {
            Some(actual) => rest.push((
                it.field@,
                actual,
                if it.limit >= actual { Some((it.limit - actual) as u64) } else { None },
            )),
            None => rest,
        }
    }
}


/// The position of the last function among `items` named `n` that has a
/// budget block; its budget context is the one a hole of `n` carries.
pub open spec fn budget_owner_spec(items: Seq<Item>, n: Seq<char>) -> Option<int>
    decreases items.len(),
{
    if items.len() == 0 {
        None
    } else {
        match items.last() {
            Item::Function(f) => if f.name@ == n && f.budget_clause is Some {
                Some(items.len() - 1)
            } else {
                budget_owner_spec(items.drop_last(), n)
            },
            _ => budget_owner_spec(items.drop_last(), n),
        }
    }
}

/// Where in `module` the function whose budget context the holes of
/// function `name` carry stands: the last function of that name with a
/// budget block, if any.
pub fn budget_owner(module: &Module, name: &str) -> (r: Option<usize>)
    ensures
        match r {
            Some(i) => budget_owner_spec(module.items@, name@) == Some(i as int),
            None => budget_owner_spec(module.items@, name@) is None,
        },
{
    let mut found: Option<usize> = None;
    let mut i: usize = 0;
    assert(module.items@.take(0) =~= Seq::<Item>::empty());
    while i < module.items.len()
        invariant
            i <= module.items@.len(),
            match found {
                Some(k) => budget_owner_spec(module.items@.take(i as int), name@) == Some(k as int),
                None => budget_owner_spec(module.items@.take(i as int), name@) is None,
            },
        decreases module.items.len() - i,
    {
        let ghost pre = module.items@.take(i + 1);
        assert(pre.drop_last() =~= module.items@.take(i as int));
        assert(pre.last() == module.items@[i as int]);
        if let Item::Function(f) = &module.items[i] {
            if crate::text::str_eq(f.name.as_str(), name) && f.budget_clause.is_some() {
                found = Some(i);
            }
        }
        i = i + 1;
    }
    assert(module.items@.take(module.items.len() as int) =~= module.items@);
    found
}

} // verus!
