//! Equality of parsed expressions and written types, node by node: two
//! trees are equal when they have the same shape, the same names and
//! literals, and equal children in the same order.

use vstd::prelude::*;
use crate::text::str_eq;
use crate::ast::{
    Expr, HandleBinding, MatchArm, Param, Pattern, SelectArm, Stmt, StrPart, TypeExpr,
};

verus! {

pub open spec fn opt_str_same(a: Option<String>, b: Option<String>) -> bool {
    match (a, b) {
        (Some(x), Some(y)) => x@ == y@,
        (None, None) => true,
        _ => false,
    }
}

/// Two written types are equal node by node.
pub open spec fn type_same(a: TypeExpr, b: TypeExpr) -> bool
    decreases a,
{
    match (a, b) {
        (TypeExpr::Named(x), TypeExpr::Named(y)) => x@ == y@,
        (TypeExpr::Hole(x), TypeExpr::Hole(y)) => opt_str_same(x, y),
        (TypeExpr::Generic(n, xs), TypeExpr::Generic(m, ys)) => n@ == m@ && xs@.len() == ys@.len()
            && forall|i: int| 0 <= i < xs@.len() ==> type_same(#[trigger] xs@[i], ys@[i]),
        (TypeExpr::Function(ps, r, es), TypeExpr::Function(qs, s, fs)) => ps@.len() == qs@.len()
            && (forall|i: int| 0 <= i < ps@.len() ==> type_same(#[trigger] ps@[i], qs@[i]))
            && type_same(*r, *s) && es@.len() == fs@.len() && (forall|i: int|
            0 <= i < es@.len() ==> type_same(#[trigger] es@[i], fs@[i])),
        (TypeExpr::Tuple(xs), TypeExpr::Tuple(ys)) => xs@.len() == ys@.len() && forall|i: int|
            0 <= i < xs@.len() ==> type_same(#[trigger] xs@[i], ys@[i]),
        (TypeExpr::Refinement(b1, v1, p1), TypeExpr::Refinement(b2, v2, p2)) => type_same(*b1, *b2)
            && v1@ == v2@ && expr_same(*p1, *p2),
        (TypeExpr::Record(xs), TypeExpr::Record(ys)) => xs@.len() == ys@.len() && forall|i: int|
            0 <= i < xs@.len() ==> (#[trigger] xs@[i]).0@ == ys@[i].0@ && type_same(xs@[i].1, ys@[i].1),
        _ => false,
    }
}

pub open spec fn opt_type_same(a: Option<TypeExpr>, b: Option<TypeExpr>) -> bool
    decreases a,
{
    match (a, b) {
        (Some(x), Some(y)) => type_same(x, y),
        (None, None) => true,
        _ => false,
    }
}

/// Two patterns are equal node by node.
pub open spec fn pattern_same(a: Pattern, b: Pattern) -> bool
    decreases a,
{
    match (a, b) {
        (Pattern::Wildcard, Pattern::Wildcard) => true,
        (Pattern::Var(x), Pattern::Var(y)) => x@ == y@,
        (Pattern::IntLit(x), Pattern::IntLit(y)) => x == y,
        (Pattern::StrLit(x), Pattern::StrLit(y)) => x@ == y@,
        (Pattern::BoolLit(x), Pattern::BoolLit(y)) => x == y,
        (Pattern::Constructor(n, xs), Pattern::Constructor(m, ys)) => n@ == m@ && xs@.len()
            == ys@.len() && forall|i: int|
            0 <= i < xs@.len() ==> pattern_same(#[trigger] xs@[i], ys@[i]),
        (Pattern::Struct(n, xs), Pattern::Struct(m, ys)) => n@ == m@ && xs@.len() == ys@.len()
            && forall|i: int|
            0 <= i < xs@.len() ==> (#[trigger] xs@[i]).0@ == ys@[i].0@ && pattern_same(
                xs@[i].1,
                ys@[i].1,
            ),
        (Pattern::Or(xs), Pattern::Or(ys)) => xs@.len() == ys@.len() && forall|i: int|
            0 <= i < xs@.len() ==> pattern_same(#[trigger] xs@[i], ys@[i]),
        (Pattern::List(xs, r1), Pattern::List(ys, r2)) => xs@.len() == ys@.len() && (forall|i: int|
            0 <= i < xs@.len() ==> pattern_same(#[trigger] xs@[i], ys@[i])) && opt_str_same(r1, r2),
        _ => false,
    }
}

pub open spec fn opt_expr_same(a: Option<Box<Expr>>, b: Option<Box<Expr>>) -> bool
    decreases a,
{
    match (a, b) {
        (Some(x), Some(y)) => expr_same(*x, *y),
        (None, None) => true,
        _ => false,
    }
}

pub open spec fn arm_same(a: MatchArm, b: MatchArm) -> bool
    decreases a,
{
    &&& pattern_same(a.pattern, b.pattern)
    &&& match (a.guard, b.guard) {
        (Some(x), Some(y)) => expr_same(x, y),
        (None, None) => true,
        _ => false,
    }
    &&& expr_same(a.body, b.body)
}

pub open spec fn stmt_same(a: Stmt, b: Stmt) -> bool
    decreases a,
{
    match (a, b) {
        (Stmt::Let(n, t, x), Stmt::Let(m, u, y)) => n@ == m@ && opt_type_same(t, u) && expr_same(x, y),
        (Stmt::Expr(x), Stmt::Expr(y)) => expr_same(x, y),
        _ => false,
    }
}

pub open spec fn part_same(a: StrPart, b: StrPart) -> bool
    decreases a,
{
    match (a, b) {
        (StrPart::Literal(x), StrPart::Literal(y)) => x@ == y@,
        (StrPart::Expr(x), StrPart::Expr(y)) => expr_same(x, y),
        _ => false,
    }
}

pub open spec fn select_same(a: SelectArm, b: SelectArm) -> bool
    decreases a,
{
    match (a, b) {
        (
            SelectArm::Recv { binding: n, source: s1, body: b1 },
            SelectArm::Recv { binding: m, source: s2, body: b2 },
        ) => n@ == m@ && expr_same(s1, s2) && expr_same(b1, b2),
        (
            SelectArm::Timeout { duration: d1, body: b1 },
            SelectArm::Timeout { duration: d2, body: b2 },
        ) => expr_same(d1, d2) && expr_same(b1, b2),
        _ => false,
    }
}

pub open spec fn handler_same(a: HandleBinding, b: HandleBinding) -> bool
    decreases a,
{
    match (a, b) {
        (HandleBinding::Use(xs), HandleBinding::Use(ys)) => xs@.len() == ys@.len() && forall|i: int|
            0 <= i < xs@.len() ==> (#[trigger] xs@[i]).0@ == ys@[i].0@ && expr_same(xs@[i].1, ys@[i].1),
        (HandleBinding::On(x), HandleBinding::On(y)) => expr_same(x, y),
        _ => false,
    }
}

pub open spec fn param_same(a: Param, b: Param) -> bool
    decreases a,
{
    a.name@ == b.name@ && type_same(a.ty, b.ty)
}

/// Two expressions are equal node by node.
pub open spec fn expr_same(a: Expr, b: Expr) -> bool
    decreases a,
{
    match (a, b) {
        (Expr::IntLit(x), Expr::IntLit(y)) => x == y,
        (Expr::FloatLit(x), Expr::FloatLit(y)) => x == y,
        (Expr::StrLit(x), Expr::StrLit(y)) => x@ == y@,
        (Expr::BoolLit(x), Expr::BoolLit(y)) => x == y,
        (Expr::CharLit(x), Expr::CharLit(y)) => x == y,
        (Expr::Var(x), Expr::Var(y)) => x@ == y@,
        (Expr::BinOp(l1, o1, r1), Expr::BinOp(l2, o2, r2)) => o1 == o2 && expr_same(*l1, *l2)
            && expr_same(*r1, *r2),
        (Expr::UnaryOp(o1, x), Expr::UnaryOp(o2, y)) => o1 == o2 && expr_same(*x, *y),
        (Expr::Call(f, xs), Expr::Call(g, ys)) => expr_same(*f, *g) && xs@.len() == ys@.len()
            && forall|i: int| 0 <= i < xs@.len() ==> expr_same(#[trigger] xs@[i], ys@[i]),
        (Expr::If(c1, t1, e1), Expr::If(c2, t2, e2)) => expr_same(*c1, *c2) && expr_same(*t1, *t2)
            && opt_expr_same(e1, e2),
        (Expr::Match(s1, xs), Expr::Match(s2, ys)) => expr_same(*s1, *s2) && xs@.len() == ys@.len()
            && forall|i: int| 0 <= i < xs@.len() ==> arm_same(#[trigger] xs@[i], ys@[i]),
        (Expr::Block(xs, t1), Expr::Block(ys, t2)) => xs@.len() == ys@.len() && (forall|i: int|
            0 <= i < xs@.len() ==> stmt_same(#[trigger] xs@[i], ys@[i])) && opt_expr_same(t1, t2),
        (Expr::StructLit(n, xs), Expr::StructLit(m, ys)) => n@ == m@ && xs@.len() == ys@.len()
            && forall|i: int|
            0 <= i < xs@.len() ==> (#[trigger] xs@[i]).0@ == ys@[i].0@ && expr_same(xs@[i].1, ys@[i].1),
        (Expr::List(xs), Expr::List(ys)) => xs@.len() == ys@.len() && forall|i: int|
            0 <= i < xs@.len() ==> expr_same(#[trigger] xs@[i], ys@[i]),
        (Expr::Lambda(ps, b1), Expr::Lambda(qs, b2)) => ps@.len() == qs@.len() && (forall|i: int|
            0 <= i < ps@.len() ==> param_same(#[trigger] ps@[i], qs@[i])) && expr_same(*b1, *b2),
        (Expr::Spawn(x), Expr::Spawn(y)) => expr_same(*x, *y),
        (Expr::Await(x), Expr::Await(y)) => expr_same(*x, *y),
        (Expr::Try(x), Expr::Try(y)) => expr_same(*x, *y),
        (Expr::Throw(x), Expr::Throw(y)) => expr_same(*x, *y),
        (
            Expr::ChannelNew { elem_type: t1, buffer: x },
            Expr::ChannelNew { elem_type: t2, buffer: y },
        ) => type_same(t1, t2) && expr_same(*x, *y),
        (Expr::Return(x), Expr::Return(y)) => opt_expr_same(x, y),
        (Expr::Pipe(l1, r1), Expr::Pipe(l2, r2)) => expr_same(*l1, *l2) && expr_same(*r1, *r2),
        (Expr::FieldAccess(x, f), Expr::FieldAccess(y, g)) => f@ == g@ && expr_same(*x, *y),
        (Expr::FString(xs), Expr::FString(ys)) => xs@.len() == ys@.len() && forall|i: int|
            0 <= i < xs@.len() ==> part_same(#[trigger] xs@[i], ys@[i]),
        (Expr::TString(xs), Expr::TString(ys)) => xs@.len() == ys@.len() && forall|i: int|
            0 <= i < xs@.len() ==> part_same(#[trigger] xs@[i], ys@[i]),
        (
            Expr::ParallelScope { lanes: l1, body: b1 },
            Expr::ParallelScope { lanes: l2, body: b2 },
        ) => opt_expr_same(l1, l2) && expr_same(*b1, *b2),
        (Expr::Select(xs), Expr::Select(ys)) => xs@.len() == ys@.len() && forall|i: int|
            0 <= i < xs@.len() ==> select_same(#[trigger] xs@[i], ys@[i]),
        (Expr::Hole(n, t), Expr::Hole(m, u)) => opt_str_same(n, m) && opt_type_same(t, u),
        (Expr::Placeholder, Expr::Placeholder) => true,
        (
            Expr::Perform { effect: e1, operation: o1, args: xs },
            Expr::Perform { effect: e2, operation: o2, args: ys },
        ) => e1@ == e2@ && o1@ == o2@ && xs@.len() == ys@.len() && forall|i: int|
            0 <= i < xs@.len() ==> expr_same(#[trigger] xs@[i], ys@[i]),
        (Expr::Handle { body: b1, handlers: xs }, Expr::Handle { body: b2, handlers: ys }) => expr_same(
            *b1,
            *b2,
        ) && xs@.len() == ys@.len() && forall|i: int|
            0 <= i < xs@.len() ==> handler_same(#[trigger] xs@[i], ys@[i]),
        _ => false,
    }
}

// ---------------------------------------------------------------------------
// Deciding equality
// ---------------------------------------------------------------------------

fn opt_str_eq(a: &Option<String>, b: &Option<String>) -> (r: bool)
    ensures
        r == opt_str_same(*a, *b),
{
    match (a, b) {
        (Some(x), Some(y)) => str_eq(x.as_str(), y.as_str()),
        (None, None) => true,
        _ => false,
    }
}

/// Whether two written types are equal node by node.
pub fn type_eq(a: &TypeExpr, b: &TypeExpr) -> (r: bool)
    ensures
        r == type_same(*a, *b),
    decreases a,
{
    match (a, b) {
        (TypeExpr::Named(x), TypeExpr::Named(y)) => str_eq(x.as_str(), y.as_str()),
        (TypeExpr::Hole(x), TypeExpr::Hole(y)) => opt_str_eq(x, y),
        (TypeExpr::Generic(n, xs), TypeExpr::Generic(m, ys)) => str_eq(n.as_str(), m.as_str())
            && types_eq(xs.as_slice(), ys.as_slice()),
        (TypeExpr::Function(ps, r, es), TypeExpr::Function(qs, s, fs)) => types_eq(
            ps.as_slice(),
            qs.as_slice(),
        ) && type_eq(r, s) && types_eq(es.as_slice(), fs.as_slice()),
        (TypeExpr::Tuple(xs), TypeExpr::Tuple(ys)) => types_eq(xs.as_slice(), ys.as_slice()),
        (TypeExpr::Refinement(b1, v1, p1), TypeExpr::Refinement(b2, v2, p2)) => type_eq(b1, b2)
            && str_eq(v1.as_str(), v2.as_str()) && expr_eq(&**p1, &**p2),
        (TypeExpr::Record(xs), TypeExpr::Record(ys)) => {
            if xs.len() != ys.len() {
                return false;
            }
            let mut i: usize = 0;
            #[verifier::loop_isolation(false)]
            while i < xs.len()
                invariant
                    i <= xs@.len(),
                    xs@.len() == ys@.len(),
                    forall|k: int|
                        0 <= k < i ==> (#[trigger] xs@[k]).0@ == ys@[k].0@ && type_same(
                            xs@[k].1,
                            ys@[k].1,
                        ),
                decreases xs.len() - i,
            {
                proof {
                    assert(decreases_to!(*a => xs@[i as int].1));
                }
                if !str_eq(xs[i].0.as_str(), ys[i].0.as_str()) || !type_eq(&xs[i].1, &ys[i].1) {
                    return false;
                }
                i = i + 1;
            }
            true
        },
        _ => false,
    }
}

fn types_eq(xs: &[TypeExpr], ys: &[TypeExpr]) -> (r: bool)
    ensures
        r == (xs@.len() == ys@.len() && forall|i: int|
            0 <= i < xs@.len() ==> type_same(#[trigger] xs@[i], ys@[i])),
    decreases xs@,
{
    if xs.len() != ys.len() {
        return false;
    }
    let mut i: usize = 0;
    while i < xs.len()
        invariant
            i <= xs@.len(),
            xs@.len() == ys@.len(),
            forall|k: int| 0 <= k < i ==> type_same(#[trigger] xs@[k], ys@[k]),
        decreases xs.len() - i,
    {
        if !type_eq(&xs[i], &ys[i]) {
            return false;
        }
        i = i + 1;
    }
    true
}

fn opt_type_eq(a: &Option<TypeExpr>, b: &Option<TypeExpr>) -> (r: bool)
    ensures
        r == opt_type_same(*a, *b),
    decreases a,
{
    match (a, b) {
        (Some(x), Some(y)) => type_eq(x, y),
        (None, None) => true,
        _ => false,
    }
}

/// Whether two patterns are equal node by node.
pub fn pattern_eq(a: &Pattern, b: &Pattern) -> (r: bool)
    ensures
        r == pattern_same(*a, *b),
    decreases a,
{
    match (a, b) {
        (Pattern::Wildcard, Pattern::Wildcard) => true,
        (Pattern::Var(x), Pattern::Var(y)) => str_eq(x.as_str(), y.as_str()),
        (Pattern::IntLit(x), Pattern::IntLit(y)) => *x == *y,
        (Pattern::StrLit(x), Pattern::StrLit(y)) => str_eq(x.as_str(), y.as_str()),
        (Pattern::BoolLit(x), Pattern::BoolLit(y)) => *x == *y,
        (Pattern::Constructor(n, xs), Pattern::Constructor(m, ys)) => str_eq(n.as_str(), m.as_str())
            && patterns_eq(xs.as_slice(), ys.as_slice()),
        (Pattern::Struct(n, xs), Pattern::Struct(m, ys)) => {
            if !str_eq(n.as_str(), m.as_str()) || xs.len() != ys.len() {
                return false;
            }
            let mut i: usize = 0;
            #[verifier::loop_isolation(false)]
            while i < xs.len()
                invariant
                    i <= xs@.len(),
                    xs@.len() == ys@.len(),
                    forall|k: int|
                        0 <= k < i ==> (#[trigger] xs@[k]).0@ == ys@[k].0@ && pattern_same(
                            xs@[k].1,
                            ys@[k].1,
                        ),
                decreases xs.len() - i,
            {
                proof {
                    assert(decreases_to!(*a => xs@[i as int].1));
                }
                if !str_eq(xs[i].0.as_str(), ys[i].0.as_str()) || !pattern_eq(&xs[i].1, &ys[i].1) {
                    return false;
                }
                i = i + 1;
            }
            true
        },
        (Pattern::Or(xs), Pattern::Or(ys)) => patterns_eq(xs.as_slice(), ys.as_slice()),
        (Pattern::List(xs, r1), Pattern::List(ys, r2)) => patterns_eq(xs.as_slice(), ys.as_slice())
            && opt_str_eq(r1, r2),
        _ => false,
    }
}

fn patterns_eq(xs: &[Pattern], ys: &[Pattern]) -> (r: bool)
    ensures
        r == (xs@.len() == ys@.len() && forall|i: int|
            0 <= i < xs@.len() ==> pattern_same(#[trigger] xs@[i], ys@[i])),
    decreases xs@,
{
    if xs.len() != ys.len() {
        return false;
    }
    let mut i: usize = 0;
    while i < xs.len()
        invariant
            i <= xs@.len(),
            xs@.len() == ys@.len(),
            forall|k: int| 0 <= k < i ==> pattern_same(#[trigger] xs@[k], ys@[k]),
        decreases xs.len() - i,
    {
        if !pattern_eq(&xs[i], &ys[i]) {
            return false;
        }
        i = i + 1;
    }
    true
}

fn opt_expr_eq(a: &Option<Box<Expr>>, b: &Option<Box<Expr>>) -> (r: bool)
    ensures
        r == opt_expr_same(*a, *b),
    decreases a,
{
    match (a, b) {
        (Some(x), Some(y)) => expr_eq(x, y),
        (None, None) => true,
        _ => false,
    }
}

fn exprs_eq(xs: &[Expr], ys: &[Expr]) -> (r: bool)
    ensures
        r == (xs@.len() == ys@.len() && forall|i: int|
            0 <= i < xs@.len() ==> expr_same(#[trigger] xs@[i], ys@[i])),
    decreases xs@,
{
    if xs.len() != ys.len() {
        return false;
    }
    let mut i: usize = 0;
    while i < xs.len()
        invariant
            i <= xs@.len(),
            xs@.len() == ys@.len(),
            forall|k: int| 0 <= k < i ==> expr_same(#[trigger] xs@[k], ys@[k]),
        decreases xs.len() - i,
    {
        if !expr_eq(&xs[i], &ys[i]) {
            return false;
        }
        i = i + 1;
    }
    true
}

fn named_exprs_eq(xs: &[(String, Expr)], ys: &[(String, Expr)]) -> (r: bool)
    ensures
        r == (xs@.len() == ys@.len() && forall|i: int|
            0 <= i < xs@.len() ==> (#[trigger] xs@[i]).0@ == ys@[i].0@ && expr_same(
                xs@[i].1,
                ys@[i].1,
            )),
    decreases xs@,
{
    if xs.len() != ys.len() {
        return false;
    }
    let mut i: usize = 0;
    while i < xs.len()
        invariant
            i <= xs@.len(),
            xs@.len() == ys@.len(),
            forall|k: int|
                0 <= k < i ==> (#[trigger] xs@[k]).0@ == ys@[k].0@ && expr_same(xs@[k].1, ys@[k].1),
        decreases xs.len() - i,
    {
        proof {
            assert(decreases_to!(xs@ => xs@[i as int].1));
        }
        if !str_eq(xs[i].0.as_str(), ys[i].0.as_str()) || !expr_eq(&xs[i].1, &ys[i].1) {
            return false;
        }
        i = i + 1;
    }
    true
}

fn arm_eq(a: &MatchArm, b: &MatchArm) -> (r: bool)
    ensures
        r == arm_same(*a, *b),
    decreases a,
{
    if !pattern_eq(&a.pattern, &b.pattern) {
        return false;
    }
    let guards = match (&a.guard, &b.guard) {
        (Some(x), Some(y)) => expr_eq(x, y),
        (None, None) => true,
        _ => false,
    };
    guards && expr_eq(&a.body, &b.body)
}

fn arms_eq(xs: &[MatchArm], ys: &[MatchArm]) -> (r: bool)
    ensures
        r == (xs@.len() == ys@.len() && forall|i: int|
            0 <= i < xs@.len() ==> arm_same(#[trigger] xs@[i], ys@[i])),
    decreases xs@,
{
    if xs.len() != ys.len() {
        return false;
    }
    let mut i: usize = 0;
    while i < xs.len()
        invariant
            i <= xs@.len(),
            xs@.len() == ys@.len(),
            forall|k: int| 0 <= k < i ==> arm_same(#[trigger] xs@[k], ys@[k]),
        decreases xs.len() - i,
    {
        if !arm_eq(&xs[i], &ys[i]) {
            return false;
        }
        i = i + 1;
    }
    true
}

fn stmt_eq(a: &Stmt, b: &Stmt) -> (r: bool)
    ensures
        r == stmt_same(*a, *b),
    decreases a,
{
    match (a, b) {
        (Stmt::Let(n, t, x), Stmt::Let(m, u, y)) => str_eq(n.as_str(), m.as_str()) && opt_type_eq(t, u)
            && expr_eq(x, y),
        (Stmt::Expr(x), Stmt::Expr(y)) => expr_eq(x, y),
        _ => false,
    }
}

fn stmts_eq(xs: &[Stmt], ys: &[Stmt]) -> (r: bool)
    ensures
        r == (xs@.len() == ys@.len() && forall|i: int|
            0 <= i < xs@.len() ==> stmt_same(#[trigger] xs@[i], ys@[i])),
    decreases xs@,
{
    if xs.len() != ys.len() {
        return false;
    }
    let mut i: usize = 0;
    while i < xs.len()
        invariant
            i <= xs@.len(),
            xs@.len() == ys@.len(),
            forall|k: int| 0 <= k < i ==> stmt_same(#[trigger] xs@[k], ys@[k]),
        decreases xs.len() - i,
    {
        if !stmt_eq(&xs[i], &ys[i]) {
            return false;
        }
        i = i + 1;
    }
    true
}

fn part_eq(a: &StrPart, b: &StrPart) -> (r: bool)
    ensures
        r == part_same(*a, *b),
    decreases a,
{
    match (a, b) {
        (StrPart::Literal(x), StrPart::Literal(y)) => str_eq(x.as_str(), y.as_str()),
        (StrPart::Expr(x), StrPart::Expr(y)) => expr_eq(x, y),
        _ => false,
    }
}

fn parts_eq(xs: &[StrPart], ys: &[StrPart]) -> (r: bool)
    ensures
        r == (xs@.len() == ys@.len() && forall|i: int|
            0 <= i < xs@.len() ==> part_same(#[trigger] xs@[i], ys@[i])),
    decreases xs@,
{
    if xs.len() != ys.len() {
        return false;
    }
    let mut i: usize = 0;
    while i < xs.len()
        invariant
            i <= xs@.len(),
            xs@.len() == ys@.len(),
            forall|k: int| 0 <= k < i ==> part_same(#[trigger] xs@[k], ys@[k]),
        decreases xs.len() - i,
    {
        if !part_eq(&xs[i], &ys[i]) {
            return false;
        }
        i = i + 1;
    }
    true
}

fn select_eq(a: &SelectArm, b: &SelectArm) -> (r: bool)
    ensures
        r == select_same(*a, *b),
    decreases a,
{
    match (a, b) {
        (
            SelectArm::Recv { binding: n, source: s1, body: b1 },
            SelectArm::Recv { binding: m, source: s2, body: b2 },
        ) => str_eq(n.as_str(), m.as_str()) && expr_eq(s1, s2) && expr_eq(b1, b2),
        (
            SelectArm::Timeout { duration: d1, body: b1 },
            SelectArm::Timeout { duration: d2, body: b2 },
        ) => expr_eq(d1, d2) && expr_eq(b1, b2),
        _ => false,
    }
}

fn selects_eq(xs: &[SelectArm], ys: &[SelectArm]) -> (r: bool)
    ensures
        r == (xs@.len() == ys@.len() && forall|i: int|
            0 <= i < xs@.len() ==> select_same(#[trigger] xs@[i], ys@[i])),
    decreases xs@,
{
    if xs.len() != ys.len() {
        return false;
    }
    let mut i: usize = 0;
    while i < xs.len()
        invariant
            i <= xs@.len(),
            xs@.len() == ys@.len(),
            forall|k: int| 0 <= k < i ==> select_same(#[trigger] xs@[k], ys@[k]),
        decreases xs.len() - i,
    {
        if !select_eq(&xs[i], &ys[i]) {
            return false;
        }
        i = i + 1;
    }
    true
}

fn handler_eq(a: &HandleBinding, b: &HandleBinding) -> (r: bool)
    ensures
        r == handler_same(*a, *b),
    decreases a,
{
    match (a, b) {
        (HandleBinding::Use(xs), HandleBinding::Use(ys)) => named_exprs_eq(xs.as_slice(), ys.as_slice()),
        (HandleBinding::On(x), HandleBinding::On(y)) => expr_eq(x, y),
        _ => false,
    }
}

fn handlers_eq(xs: &[HandleBinding], ys: &[HandleBinding]) -> (r: bool)
    ensures
        r == (xs@.len() == ys@.len() && forall|i: int|
            0 <= i < xs@.len() ==> handler_same(#[trigger] xs@[i], ys@[i])),
    decreases xs@,
{
    if xs.len() != ys.len() {
        return false;
    }
    let mut i: usize = 0;
    while i < xs.len()
        invariant
            i <= xs@.len(),
            xs@.len() == ys@.len(),
            forall|k: int| 0 <= k < i ==> handler_same(#[trigger] xs@[k], ys@[k]),
        decreases xs.len() - i,
    {
        if !handler_eq(&xs[i], &ys[i]) {
            return false;
        }
        i = i + 1;
    }
    true
}

fn params_eq(xs: &[Param], ys: &[Param]) -> (r: bool)
    ensures
        r == (xs@.len() == ys@.len() && forall|i: int|
            0 <= i < xs@.len() ==> param_same(#[trigger] xs@[i], ys@[i])),
    decreases xs@,
{
    if xs.len() != ys.len() {
        return false;
    }
    let mut i: usize = 0;
    while i < xs.len()
        invariant
            i <= xs@.len(),
            xs@.len() == ys@.len(),
            forall|k: int| 0 <= k < i ==> param_same(#[trigger] xs@[k], ys@[k]),
        decreases xs.len() - i,
    {
        proof {
            assert(decreases_to!(xs@ => xs@[i as int].ty));
        }
        if !str_eq(xs[i].name.as_str(), ys[i].name.as_str()) || !type_eq(&xs[i].ty, &ys[i].ty) {
            return false;
        }
        i = i + 1;
    }
    true
}

/// Whether two expressions are equal node by node.
pub fn expr_eq(a: &Expr, b: &Expr) -> (r: bool)
    ensures
        r == expr_same(*a, *b),
    decreases a,
{
    match (a, b) {
        (Expr::IntLit(x), Expr::IntLit(y)) => *x == *y,
        (Expr::FloatLit(x), Expr::FloatLit(y)) => *x == *y,
        (Expr::StrLit(x), Expr::StrLit(y)) => str_eq(x.as_str(), y.as_str()),
        (Expr::BoolLit(x), Expr::BoolLit(y)) => *x == *y,
        (Expr::CharLit(x), Expr::CharLit(y)) => *x == *y,
        (Expr::Var(x), Expr::Var(y)) => str_eq(x.as_str(), y.as_str()),
        (Expr::BinOp(l1, o1, r1), Expr::BinOp(l2, o2, r2)) => *o1 == *o2 && expr_eq(l1, l2)
            && expr_eq(r1, r2),
        (Expr::UnaryOp(o1, x), Expr::UnaryOp(o2, y)) => *o1 == *o2 && expr_eq(x, y),
        (Expr::Call(f, xs), Expr::Call(g, ys)) => expr_eq(f, g) && exprs_eq(
            xs.as_slice(),
            ys.as_slice(),
        ),
        (Expr::If(c1, t1, e1), Expr::If(c2, t2, e2)) => expr_eq(c1, c2) && expr_eq(t1, t2)
            && opt_expr_eq(e1, e2),
        (Expr::Match(s1, xs), Expr::Match(s2, ys)) => expr_eq(s1, s2) && arms_eq(
            xs.as_slice(),
            ys.as_slice(),
        ),
        (Expr::Block(xs, t1), Expr::Block(ys, t2)) => stmts_eq(xs.as_slice(), ys.as_slice())
            && opt_expr_eq(t1, t2),
        (Expr::StructLit(n, xs), Expr::StructLit(m, ys)) => str_eq(n.as_str(), m.as_str())
            && named_exprs_eq(xs.as_slice(), ys.as_slice()),
        (Expr::List(xs), Expr::List(ys)) => exprs_eq(xs.as_slice(), ys.as_slice()),
        (Expr::Lambda(ps, b1), Expr::Lambda(qs, b2)) => params_eq(ps.as_slice(), qs.as_slice())
            && expr_eq(b1, b2),
        (Expr::Spawn(x), Expr::Spawn(y)) => expr_eq(x, y),
        (Expr::Await(x), Expr::Await(y)) => expr_eq(x, y),
        (Expr::Try(x), Expr::Try(y)) => expr_eq(x, y),
        (Expr::Throw(x), Expr::Throw(y)) => expr_eq(x, y),
        (
            Expr::ChannelNew { elem_type: t1, buffer: x },
            Expr::ChannelNew { elem_type: t2, buffer: y },
        ) => type_eq(t1, t2) && expr_eq(x, y),
        (Expr::Return(x), Expr::Return(y)) => opt_expr_eq(x, y),
        (Expr::Pipe(l1, r1), Expr::Pipe(l2, r2)) => expr_eq(l1, l2) && expr_eq(r1, r2),
        (Expr::FieldAccess(x, f), Expr::FieldAccess(y, g)) => str_eq(f.as_str(), g.as_str())
            && expr_eq(x, y),
        (Expr::FString(xs), Expr::FString(ys)) => parts_eq(xs.as_slice(), ys.as_slice()),
        (Expr::TString(xs), Expr::TString(ys)) => parts_eq(xs.as_slice(), ys.as_slice()),
        (
            Expr::ParallelScope { lanes: l1, body: b1 },
            Expr::ParallelScope { lanes: l2, body: b2 },
        ) => opt_expr_eq(l1, l2) && expr_eq(b1, b2),
        (Expr::Select(xs), Expr::Select(ys)) => selects_eq(xs.as_slice(), ys.as_slice()),
        (Expr::Hole(n, t), Expr::Hole(m, u)) => opt_str_eq(n, m) && opt_type_eq(t, u),
        (Expr::Placeholder, Expr::Placeholder) => true,
        (
            Expr::Perform { effect: e1, operation: o1, args: xs },
            Expr::Perform { effect: e2, operation: o2, args: ys },
        ) => str_eq(e1.as_str(), e2.as_str()) && str_eq(o1.as_str(), o2.as_str()) && exprs_eq(
            xs.as_slice(),
            ys.as_slice(),
        ),
        (Expr::Handle { body: b1, handlers: xs }, Expr::Handle { body: b2, handlers: ys }) => expr_eq(
            b1,
            b2,
        ) && handlers_eq(xs.as_slice(), ys.as_slice()),
        _ => false,
    }
}

// ---------------------------------------------------------------------------
// Every tree equals itself
// ---------------------------------------------------------------------------

/// The expression behind a shared handle.
pub open spec fn shared_expr(p: std::rc::Rc<Expr>) -> Expr {
    *p
}

pub proof fn lemma_type_same_refl(t: TypeExpr)
    ensures
        type_same(t, t),
    decreases t,
{
    match t {
        TypeExpr::Generic(_, xs) => {
            assert forall|i: int| 0 <= i < xs@.len() implies type_same(#[trigger] xs@[i], xs@[i]) by {
                lemma_type_same_refl(xs@[i]);
            }
        },
        TypeExpr::Function(ps, r, es) => {
            assert forall|i: int| 0 <= i < ps@.len() implies type_same(#[trigger] ps@[i], ps@[i]) by {
                lemma_type_same_refl(ps@[i]);
            }
            assert forall|i: int| 0 <= i < es@.len() implies type_same(#[trigger] es@[i], es@[i]) by {
                lemma_type_same_refl(es@[i]);
            }
            lemma_type_same_refl(*r);
        },
        TypeExpr::Tuple(xs) => {
            assert forall|i: int| 0 <= i < xs@.len() implies type_same(#[trigger] xs@[i], xs@[i]) by {
                lemma_type_same_refl(xs@[i]);
            }
        },
        TypeExpr::Refinement(b, _, p) => {
            lemma_type_same_refl(*b);
            lemma_expr_same_refl(shared_expr(p));
        },
        TypeExpr::Record(xs) => {
            assert forall|i: int| 0 <= i < xs@.len() implies type_same(xs@[i].1, xs@[i].1) by {
                lemma_type_same_refl(xs@[i].1);
            }
        },
        TypeExpr::Hole(n) => {},
        TypeExpr::Named(_) => {},
    }
}

pub proof fn lemma_pattern_same_refl(p: Pattern)
    ensures
        pattern_same(p, p),
    decreases p,
{
    match p {
        Pattern::Constructor(_, xs) => {
            assert forall|i: int| 0 <= i < xs@.len() implies pattern_same(#[trigger] xs@[i], xs@[i]) by {
                lemma_pattern_same_refl(xs@[i]);
            }
        },
        Pattern::Struct(_, xs) => {
            assert forall|i: int| 0 <= i < xs@.len() implies pattern_same(xs@[i].1, xs@[i].1) by {
                lemma_pattern_same_refl(xs@[i].1);
            }
        },
        Pattern::Or(xs) => {
            assert forall|i: int| 0 <= i < xs@.len() implies pattern_same(#[trigger] xs@[i], xs@[i]) by {
                lemma_pattern_same_refl(xs@[i]);
            }
        },
        Pattern::List(xs, _) => {
            assert forall|i: int| 0 <= i < xs@.len() implies pattern_same(#[trigger] xs@[i], xs@[i]) by {
                lemma_pattern_same_refl(xs@[i]);
            }
        },
        _ => {},
    }
}

pub proof fn lemma_expr_same_refl(e: Expr)
    ensures
        expr_same(e, e),
    decreases e,
{
    match e {
        Expr::BinOp(l, _, r) => {
            lemma_expr_same_refl(*l);
            lemma_expr_same_refl(*r);
            assert(expr_same(e, e));
        },
        Expr::UnaryOp(_, x) => lemma_expr_same_refl(*x),
        Expr::Call(f, xs) => {
            lemma_expr_same_refl(*f);
            assert forall|i: int| 0 <= i < xs@.len() implies expr_same(#[trigger] xs@[i], xs@[i]) by {
                lemma_expr_same_refl(xs@[i]);
            }
            assert(expr_same(e, e));
        },
        Expr::If(c, t, el) => {
            lemma_expr_same_refl(*c);
            lemma_expr_same_refl(*t);
            match el {
                Some(x) => {
                    lemma_expr_same_refl(*x);
                    assert(opt_expr_same(Some(x), Some(x)));
                },
                None => {
                    assert(opt_expr_same(None, None));
                },
            }
            assert(expr_same(e, e));
        },
        Expr::Match(sc, arms) => {
            lemma_expr_same_refl(*sc);
            assert forall|i: int| 0 <= i < arms@.len() implies arm_same(#[trigger] arms@[i], arms@[i]) by {
                lemma_pattern_same_refl(arms@[i].pattern);
                lemma_expr_same_refl(arms@[i].body);
                if let Some(g) = arms@[i].guard {
                    lemma_expr_same_refl(g);
                }
            }
            assert(expr_same(e, e));
        },
        Expr::Block(stmts, tail) => {
            assert forall|i: int| 0 <= i < stmts@.len() implies stmt_same(#[trigger] stmts@[i], stmts@[i]) by {
                match stmts@[i] {
                    Stmt::Let(_, t, x) => {
                        lemma_expr_same_refl(x);
                        if let Some(ty) = t {
                            lemma_type_same_refl(ty);
                        }
                    },
                    Stmt::Expr(x) => lemma_expr_same_refl(x),
                }
            }
            match tail {
                Some(x) => {
                    lemma_expr_same_refl(*x);
                    assert(opt_expr_same(Some(x), Some(x)));
                },
                None => {
                    assert(opt_expr_same(None, None));
                },
            }
            assert(expr_same(e, e));
        },
        Expr::StructLit(_, xs) => {
            assert forall|i: int| 0 <= i < xs@.len() implies expr_same(xs@[i].1, xs@[i].1) by {
                lemma_expr_same_refl(xs@[i].1);
            }
            assert(expr_same(e, e));
        },
        Expr::List(xs) => {
            assert forall|i: int| 0 <= i < xs@.len() implies expr_same(#[trigger] xs@[i], xs@[i]) by {
                lemma_expr_same_refl(xs@[i]);
            }
            assert(expr_same(e, e));
        },
        Expr::Lambda(ps, b) => {
            assert forall|i: int| 0 <= i < ps@.len() implies param_same(#[trigger] ps@[i], ps@[i]) by {
                lemma_type_same_refl(ps@[i].ty);
            }
            lemma_expr_same_refl(*b);
            assert(expr_same(e, e));
        },
        Expr::Spawn(x) => lemma_expr_same_refl(*x),
        Expr::Await(x) => lemma_expr_same_refl(*x),
        Expr::Try(x) => lemma_expr_same_refl(*x),
        Expr::Throw(x) => lemma_expr_same_refl(*x),
        Expr::ChannelNew { elem_type, buffer } => {
            lemma_type_same_refl(elem_type);
            lemma_expr_same_refl(*buffer);
            assert(expr_same(e, e));
        },
        Expr::Return(x) => {
            match x {
                Some(y) => {
                    lemma_expr_same_refl(*y);
                    assert(opt_expr_same(Some(y), Some(y)));
                },
                None => {
                    assert(opt_expr_same(None, None));
                },
            }
            assert(expr_same(e, e));
        },
        Expr::Pipe(l, r) => {
            lemma_expr_same_refl(*l);
            lemma_expr_same_refl(*r);
            assert(expr_same(e, e));
        },
        Expr::FieldAccess(x, _) => lemma_expr_same_refl(*x),
        Expr::FString(xs) => {
            assert forall|i: int| 0 <= i < xs@.len() implies part_same(#[trigger] xs@[i], xs@[i]) by {
                if let StrPart::Expr(x) = xs@[i] {
                    lemma_expr_same_refl(x);
                }
            }
            assert(expr_same(e, e));
        },
        Expr::TString(xs) => {
            assert forall|i: int| 0 <= i < xs@.len() implies part_same(#[trigger] xs@[i], xs@[i]) by {
                if let StrPart::Expr(x) = xs@[i] {
                    lemma_expr_same_refl(x);
                }
            }
            assert(expr_same(e, e));
        },
        Expr::ParallelScope { lanes, body } => {
            match lanes {
                Some(x) => {
                    lemma_expr_same_refl(*x);
                    assert(opt_expr_same(Some(x), Some(x)));
                },
                None => {
                    assert(opt_expr_same(None, None));
                },
            }
            lemma_expr_same_refl(*body);
            assert(expr_same(e, e));
        },
        Expr::Select(xs) => {
            assert forall|i: int| 0 <= i < xs@.len() implies select_same(#[trigger] xs@[i], xs@[i]) by {
                match xs@[i] {
                    SelectArm::Recv { binding: _, source, body } => {
                        lemma_expr_same_refl(source);
                        lemma_expr_same_refl(body);
                    },
                    SelectArm::Timeout { duration, body } => {
                        lemma_expr_same_refl(duration);
                        lemma_expr_same_refl(body);
                    },
                }
            }
            assert(expr_same(e, e));
        },
        Expr::Hole(n, t) => {
            match t {
                Some(ty) => {
                    lemma_type_same_refl(ty);
                    assert(opt_type_same(Some(ty), Some(ty)));
                },
                None => {
                    assert(opt_type_same(None, None));
                },
            }
            assert(opt_str_same(n, n));
            assert(expr_same(e, e));
        },
        Expr::Perform { effect: _, operation: _, args } => {
            assert forall|i: int| 0 <= i < args@.len() implies expr_same(#[trigger] args@[i], args@[i]) by {
                lemma_expr_same_refl(args@[i]);
            }
            assert(expr_same(e, e));
        },
        Expr::Handle { body, handlers } => {
            lemma_expr_same_refl(*body);
            assert forall|i: int| 0 <= i < handlers@.len() implies handler_same(#[trigger] handlers@[i], handlers@[i]) by {
                match handlers@[i] {
                    HandleBinding::Use(xs) => {
                        assert forall|j: int| 0 <= j < xs@.len() implies expr_same(xs@[j].1, xs@[j].1) by {
                            lemma_expr_same_refl(xs@[j].1);
                        }
                    },
                    HandleBinding::On(x) => lemma_expr_same_refl(x),
                }
            }
            assert(expr_same(e, e));
        },
        _ => {},
    }
}

} // verus!
