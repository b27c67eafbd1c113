//! Lowering of the parsed module to HIR.
//!
//! Names are resolved to definition ids, pipes `a |> f` become calls
//! `f(a)`, and f-strings and t-strings become left-nested string
//! concatenations of their parts.
//!
//! Lowering walks the module in source order. Top-level items are
//! registered first; parameters, `let` bindings and pattern variables are
//! registered when the walk reaches them, so a name resolves to the id it was
//! given by the first registration the walk has already passed, and to
//! `UNRESOLVED` before any.

use vstd::prelude::*;
use crate::text::{str_eq, string_of};
use crate::name_map::NameMap;
use crate::names::{views, sorted, clone_names};
use crate::effect_set::EffectSet;
use crate::ast::{
    AstCostExpr, BinOp, CapabilityDef, Expr, FnDef, ImplDef, Item, MatchArm, Module, Param,
    Pattern, SelectArm, Stmt, StrPart, StructDef, TypeDef, TypeExpr, UnaryOp,
};
use crate::hir::{
    DefId, HirBinOp, HirCapabilityDef, HirExpr, HirFnDef, HirImplDef, HirItem, HirMatchArm,
    HirModule, HirParam, HirPattern, HirStmt, HirStructDef, HirTypeConstraint, HirTypeDef,
    HirTypeRef, HirUnaryOp, HirVariant, PrimitiveTy, UNRESOLVED,
};

verus! {

// ---------------------------------------------------------------------------
// The resolution scope
// ---------------------------------------------------------------------------

/// What lowering knows at a point of the walk: the id of each registered
/// name, and the id the next new name will get.
pub struct Scope {
    pub names: Map<Seq<char>, u32>,
    pub next: u32,
}

/// The scope before anything is registered.
pub open spec fn empty_scope() -> Scope {
    Scope { names: Map::empty(), next: 0 }
}

/// The id `n` resolves to: its registered id, or `UNRESOLVED`.
pub open spec fn resolved(names: Map<Seq<char>, u32>, n: Seq<char>) -> u32 {
    if names.contains_key(n) {
        names[n]
    } else {
        UNRESOLVED
    }
}

/// Registering `n`: a known name keeps its id; a new one gets the next id,
/// and the counter moves on (it stays at the largest id once reached).
pub open spec fn reg(s: Scope, n: Seq<char>) -> Scope {
    if s.names.contains_key(n) {
        s
    } else {
        Scope {
            names: s.names.insert(n, s.next),
            next: if s.next < u32::MAX { (s.next + 1) as u32 } else { s.next },
        }
    }
}

// ---------------------------------------------------------------------------
// Written types
// ---------------------------------------------------------------------------

/// The primitive type a type name denotes, if it is one.
pub open spec fn primitive_of(n: Seq<char>) -> Option<PrimitiveTy> {
    if n == "Int"@ || n == "I8"@ || n == "I16"@ || n == "I32"@ || n == "I64"@ || n == "U8"@
        || n == "U16"@ || n == "U32"@ || n == "U64"@ {
        Some(PrimitiveTy::Int)
    } else if n == "F32"@ || n == "F64"@ {
        Some(PrimitiveTy::Float)
    } else if n == "Bool"@ {
        Some(PrimitiveTy::Bool)
    } else if n == "Str"@ {
        Some(PrimitiveTy::Str)
    } else if n == "Char"@ {
        Some(PrimitiveTy::Char)
    } else if n == "Never"@ {
        Some(PrimitiveTy::Never)
    } else {
        None
    }
}

/// The name shown for a hole: its own, or `_` for an unnamed one.
pub open spec fn hole_label(n: Option<String>) -> Seq<char> {
    match n {
        Some(x) => x@,
        None => "_"@,
    }
}

/// `h` is the lowering of the written type `te` under `names`: primitive
/// names become primitives, other names resolve, holes become unresolved
/// names, the empty tuple is `Unit` and other tuples are `Tuple` generics,
/// a refinement lowers as its base type, and a function type drops its
/// error types.
pub open spec fn type_ok(names: Map<Seq<char>, u32>, te: TypeExpr, h: HirTypeRef) -> bool
    decreases te,
{
    match te {
        TypeExpr::Named(n) => match primitive_of(n@) {
            Some(p) => h == HirTypeRef::Primitive(p),
            None => h matches HirTypeRef::Named(m, id) && m@ == n@ && id == resolved(names, n@),
        },
        TypeExpr::Hole(n) => h matches HirTypeRef::Named(m, id) && m@ == hole_label(n) && id
            == UNRESOLVED,
        TypeExpr::Generic(n, args) => h matches HirTypeRef::Generic(m, hs) && m@ == n@
            && hs@.len() == args@.len() && forall|i: int|
            0 <= i < args@.len() ==> type_ok(names, #[trigger] args@[i], hs@[i]),
        TypeExpr::Function(ps, r, _) => h matches HirTypeRef::Function(hs, hr)
            && hs@.len() == ps@.len() && (forall|i: int|
            0 <= i < ps@.len() ==> type_ok(names, #[trigger] ps@[i], hs@[i])) && type_ok(
            names,
            *r,
            *hr,
        ),
        TypeExpr::Tuple(ts) => if ts@.len() == 0 {
            h == HirTypeRef::Primitive(PrimitiveTy::Unit)
        } else {
            h matches HirTypeRef::Generic(m, hs) && m@ == "Tuple"@ && hs@.len() == ts@.len()
                && forall|i: int| 0 <= i < ts@.len() ==> type_ok(names, #[trigger] ts@[i], hs@[i])
        },
        TypeExpr::Refinement(b, _, _) => type_ok(names, *b, h),
        TypeExpr::Record(fs) => h matches HirTypeRef::Record(hfs) && hfs@.len() == fs@.len()
            && forall|i: int|
            0 <= i < fs@.len() ==> (#[trigger] hfs@[i]).0@ == fs@[i].0@ && type_ok(
                names,
                fs@[i].1,
                *hfs@[i].1,
            ),
    }
}

/// `h` is the optional written type `te` lowered under `names`.
pub open spec fn opt_type_ok(
    names: Map<Seq<char>, u32>,
    te: Option<TypeExpr>,
    h: Option<HirTypeRef>,
) -> bool {
    match (te, h) {
        (Some(t), Some(ht)) => type_ok(names, t, ht),
        (None, None) => true,
        _ => false,
    }
}

/// The lowering of each type of `ts` under `names`, in order.
pub open spec fn types_ok(
    names: Map<Seq<char>, u32>,
    ts: Seq<TypeExpr>,
    hs: Seq<HirTypeRef>,
) -> bool {
    hs.len() == ts.len() && forall|i: int| 0 <= i < ts.len() ==> type_ok(names, #[trigger] ts[i], hs[i])
}

// ---------------------------------------------------------------------------
// Operators and cost terms
// ---------------------------------------------------------------------------

pub open spec fn binop_of(op: BinOp) -> HirBinOp {
    match op {
        BinOp::Add => HirBinOp::Add,
        BinOp::Sub => HirBinOp::Sub,
        BinOp::Mul => HirBinOp::Mul,
        BinOp::Div => HirBinOp::Div,
        BinOp::Mod => HirBinOp::Mod,
        BinOp::Eq => HirBinOp::Eq,
        BinOp::Ne => HirBinOp::Ne,
        BinOp::Lt => HirBinOp::Lt,
        BinOp::Gt => HirBinOp::Gt,
        BinOp::Le => HirBinOp::Le,
        BinOp::Ge => HirBinOp::Ge,
        BinOp::And => HirBinOp::And,
        BinOp::Or => HirBinOp::Or,
        BinOp::BitAnd => HirBinOp::BitAnd,
        BinOp::BitOr => HirBinOp::BitOr,
        BinOp::BitXor => HirBinOp::BitXor,
        BinOp::Shl => HirBinOp::Shl,
        BinOp::Shr => HirBinOp::Shr,
    }
}

pub open spec fn unaryop_of(op: UnaryOp) -> HirUnaryOp {
    match op {
        UnaryOp::Neg => HirUnaryOp::Neg,
        UnaryOp::Not => HirUnaryOp::Not,
        UnaryOp::BitNot => HirUnaryOp::BitNot,
    }
}

/// Maps each binary operator to its HIR counterpart.
pub fn lower_binop(op: &BinOp) -> (r: HirBinOp)
    ensures
        r == binop_of(*op),
{
    match op {
        BinOp::Add => HirBinOp::Add,
        BinOp::Sub => HirBinOp::Sub,
        BinOp::Mul => HirBinOp::Mul,
        BinOp::Div => HirBinOp::Div,
        BinOp::Mod => HirBinOp::Mod,
        BinOp::Eq => HirBinOp::Eq,
        BinOp::Ne => HirBinOp::Ne,
        BinOp::Lt => HirBinOp::Lt,
        BinOp::Gt => HirBinOp::Gt,
        BinOp::Le => HirBinOp::Le,
        BinOp::Ge => HirBinOp::Ge,
        BinOp::And => HirBinOp::And,
        BinOp::Or => HirBinOp::Or,
        BinOp::BitAnd => HirBinOp::BitAnd,
        BinOp::BitOr => HirBinOp::BitOr,
        BinOp::BitXor => HirBinOp::BitXor,
        BinOp::Shl => HirBinOp::Shl,
        BinOp::Shr => HirBinOp::Shr,
    }
}

/// Maps each unary operator to its HIR counterpart.
pub fn lower_unaryop(op: &UnaryOp) -> (r: HirUnaryOp)
    ensures
        r == unaryop_of(*op),
{
    match op {
        UnaryOp::Neg => HirUnaryOp::Neg,
        UnaryOp::Not => HirUnaryOp::Not,
        UnaryOp::BitNot => HirUnaryOp::BitNot,
    }
}

/// `h` is the cost term `ce` as an expression: a literal becomes an integer
/// literal (its bits read as `i64`), a variable or linear term a resolved
/// variable.
pub open spec fn cost_ok(names: Map<Seq<char>, u32>, ce: AstCostExpr, h: HirExpr) -> bool {
    match ce {
        AstCostExpr::Literal(n) => h == HirExpr::IntLit(n as i64),
        AstCostExpr::Var(n) => h matches HirExpr::Var(m, id) && m@ == n@ && id == resolved(names, n@),
        AstCostExpr::Linear(n) => h matches HirExpr::Var(m, id) && m@ == n@ && id == resolved(
            names,
            n@,
        ),
    }
}

// ---------------------------------------------------------------------------
// Expressions: where lowering can go, and what each step registers
// ---------------------------------------------------------------------------

/// Lowering `e` never reaches a `_` placeholder (parsing turns every one
/// into a lambda). Only the parts lowering visits count: the first arm of a
/// `select`, the body of a `parallel` scope and of a `handle`.
pub open spec fn lowerable(e: Expr) -> bool
    decreases e,
{
    match e {
        Expr::Placeholder => false,
        Expr::BinOp(a, _, b) => lowerable(*a) && lowerable(*b),
        Expr::Pipe(a, b) => lowerable(*a) && lowerable(*b),
        Expr::UnaryOp(_, a) => lowerable(*a),
        Expr::Spawn(a) => lowerable(*a),
        Expr::Await(a) => lowerable(*a),
        Expr::Try(a) => lowerable(*a),
        Expr::Throw(a) => lowerable(*a),
        Expr::FieldAccess(a, _) => lowerable(*a),
        Expr::ChannelNew { buffer, .. } => lowerable(*buffer),
        Expr::Lambda(_, b) => lowerable(*b),
        Expr::Call(f, args) => lowerable(*f) && forall|i: int|
            0 <= i < args@.len() ==> lowerable(#[trigger] args@[i]),
        Expr::List(es) => forall|i: int| 0 <= i < es@.len() ==> lowerable(#[trigger] es@[i]),
        Expr::Perform { effect: _, operation: _, args } => forall|i: int|
            0 <= i < args@.len() ==> lowerable(#[trigger] args@[i]),
        Expr::If(c, t, el) => lowerable(*c) && lowerable(*t) && match el {
            Some(x) => lowerable(*x),
            None => true,
        },
        Expr::Match(sc, arms) => lowerable(*sc) && forall|i: int|
            0 <= i < arms@.len() ==> lowerable((#[trigger] arms@[i]).body) && match arms@[i].guard {
                Some(g) => lowerable(g),
                None => true,
            },
        Expr::Block(stmts, tail) => (forall|i: int|
            0 <= i < stmts@.len() ==> match #[trigger] stmts@[i] {
                Stmt::Let(_, _, x) => lowerable(x),
                Stmt::Expr(x) => lowerable(x),
            }) && match tail {
            Some(x) => lowerable(*x),
            None => true,
        },
        Expr::StructLit(_, fields) => forall|i: int|
            0 <= i < fields@.len() ==> lowerable((#[trigger] fields@[i]).1),
        Expr::Return(x) => match x {
            Some(y) => lowerable(*y),
            None => true,
        },
        Expr::FString(parts) => forall|i: int|
            0 <= i < parts@.len() ==> match #[trigger] parts@[i] {
                StrPart::Expr(x) => lowerable(x),
                StrPart::Literal(_) => true,
            },
        Expr::TString(parts) => forall|i: int|
            0 <= i < parts@.len() ==> match #[trigger] parts@[i] {
                StrPart::Expr(x) => lowerable(x),
                StrPart::Literal(_) => true,
            },
        Expr::ParallelScope { lanes: _, body } => lowerable(*body),
        Expr::Select(arms) => arms@.len() > 0 ==> match arms@[0] {
            SelectArm::Recv { binding: _, source: _, body } => lowerable(body),
            SelectArm::Timeout { duration: _, body } => lowerable(body),
        },
        Expr::Handle { body, handlers: _ } => lowerable(*body),
        _ => true,
    }
}

/// The scope after registering each parameter name, in order.
pub open spec fn st_params(s: Scope, ps: Seq<Param>) -> Scope
    decreases ps.len(),
{
    if ps.len() == 0 {
        s
    } else {
        reg(st_params(s, ps.drop_last()), ps.last().name@)
    }
}

/// The scope after lowering a pattern: its variables are registered, left
/// to right.
pub open spec fn st_pat(s: Scope, p: Pattern) -> Scope
    decreases p,
{
    match p {
        Pattern::Var(n) => reg(s, n@),
        Pattern::Constructor(_, ps) => st_pats(s, ps@),
        Pattern::Struct(_, fs) => st_pfields(s, fs@),
        Pattern::Or(ps) => st_pats(s, ps@),
        Pattern::List(ps, _) => st_pats(s, ps@),
        _ => s,
    }
}

pub open spec fn st_pats(s: Scope, ps: Seq<Pattern>) -> Scope
    decreases ps,
{
    if ps.len() == 0 {
        s
    } else {
        st_pat(st_pats(s, ps.drop_last()), ps.last())
    }
}

pub open spec fn st_pfields(s: Scope, fs: Seq<(String, Pattern)>) -> Scope
    decreases fs,
{
    if fs.len() == 0 {
        s
    } else {
        st_pat(st_pfields(s, fs.drop_last()), fs.last().1)
    }
}

/// The scope after lowering `e`: lambda parameters, `let` names and pattern
/// variables met on the way are registered.
pub open spec fn st_expr(s: Scope, e: Expr) -> Scope
    decreases e,
{
    match e {
        Expr::BinOp(a, _, b) => st_expr(st_expr(s, *a), *b),
        Expr::Pipe(a, b) => st_expr(st_expr(s, *a), *b),
        Expr::UnaryOp(_, a) => st_expr(s, *a),
        Expr::Spawn(a) => st_expr(s, *a),
        Expr::Await(a) => st_expr(s, *a),
        Expr::Try(a) => st_expr(s, *a),
        Expr::Throw(a) => st_expr(s, *a),
        Expr::FieldAccess(a, _) => st_expr(s, *a),
        Expr::ChannelNew { buffer, .. } => st_expr(s, *buffer),
        Expr::Lambda(ps, b) => st_expr(st_params(s, ps@), *b),
        Expr::Call(f, args) => st_exprs(st_expr(s, *f), args@),
        Expr::List(es) => st_exprs(s, es@),
        Expr::Perform { effect: _, operation: _, args } => st_exprs(s, args@),
        Expr::If(c, t, el) => {
            let s2 = st_expr(st_expr(s, *c), *t);
            match el {
                Some(x) => st_expr(s2, *x),
                None => s2,
            }
        },
        Expr::Match(sc, arms) => st_arms(st_expr(s, *sc), arms@),
        Expr::Block(stmts, tail) => {
            let s1 = st_stmts(s, stmts@);
            match tail {
                Some(x) => st_expr(s1, *x),
                None => s1,
            }
        },
        Expr::StructLit(_, fs) => st_fields(s, fs@),
        Expr::Return(x) => match x {
            Some(y) => st_expr(s, *y),
            None => s,
        },
        Expr::FString(parts) => st_parts(s, parts@),
        Expr::TString(parts) => st_parts(s, parts@),
        Expr::ParallelScope { lanes: _, body } => st_expr(s, *body),
        Expr::Select(arms) => if arms@.len() > 0 {
            match arms@[0] {
                SelectArm::Recv { binding: _, source: _, body } => st_expr(s, body),
                SelectArm::Timeout { duration: _, body } => st_expr(s, body),
            }
        } else {
            s
        },
        Expr::Handle { body, handlers: _ } => st_expr(s, *body),
        _ => s,
    }
}

pub open spec fn st_exprs(s: Scope, es: Seq<Expr>) -> Scope
    decreases es,
{
    if es.len() == 0 {
        s
    } else {
        st_expr(st_exprs(s, es.drop_last()), es.last())
    }
}

pub open spec fn st_stmt(s: Scope, st: Stmt) -> Scope
    decreases st,
{
    match st {
        Stmt::Let(n, _, init) => st_expr(reg(s, n@), init),
        Stmt::Expr(x) => st_expr(s, x),
    }
}

pub open spec fn st_stmts(s: Scope, sts: Seq<Stmt>) -> Scope
    decreases sts,
{
    if sts.len() == 0 {
        s
    } else {
        st_stmt(st_stmts(s, sts.drop_last()), sts.last())
    }
}

/// The scope after an arm: pattern, then guard, then body.
pub open spec fn st_arm(s: Scope, arm: MatchArm) -> Scope
    decreases arm,
{
    let s1 = st_pat(s, arm.pattern);
    let s2 = match arm.guard {
        Some(g) => st_expr(s1, g),
        None => s1,
    };
    st_expr(s2, arm.body)
}

pub open spec fn st_arms(s: Scope, arms: Seq<MatchArm>) -> Scope
    decreases arms,
{
    if arms.len() == 0 {
        s
    } else {
        st_arm(st_arms(s, arms.drop_last()), arms.last())
    }
}

pub open spec fn st_fields(s: Scope, fs: Seq<(String, Expr)>) -> Scope
    decreases fs,
{
    if fs.len() == 0 {
        s
    } else {
        st_expr(st_fields(s, fs.drop_last()), fs.last().1)
    }
}

pub open spec fn st_parts(s: Scope, ps: Seq<StrPart>) -> Scope
    decreases ps,
{
    if ps.len() == 0 {
        s
    } else {
        match ps.last() {
            StrPart::Expr(x) => st_expr(st_parts(s, ps.drop_last()), x),
            StrPart::Literal(_) => st_parts(s, ps.drop_last()),
        }
    }
}

// ---------------------------------------------------------------------------
// Expressions: what lowering produces
// ---------------------------------------------------------------------------

/// `h` is the lowering of the pattern `p`; a list pattern becomes a `List`
/// constructor of its element patterns (the rest binding is dropped).
pub open spec fn pat_ok(p: Pattern, h: HirPattern) -> bool
    decreases p,
{
    match p {
        Pattern::Wildcard => h == HirPattern::Wildcard,
        Pattern::Var(n) => h matches HirPattern::Var(m) && m@ == n@,
        Pattern::IntLit(v) => h == HirPattern::IntLit(v),
        Pattern::StrLit(t) => h matches HirPattern::StrLit(u) && u@ == t@,
        Pattern::BoolLit(b) => h == HirPattern::BoolLit(b),
        Pattern::Constructor(n, ps) => h matches HirPattern::Constructor(m, hs) && m@ == n@
            && hs@.len() == ps@.len() && forall|i: int|
            0 <= i < ps@.len() ==> pat_ok(#[trigger] ps@[i], hs@[i]),
        Pattern::Struct(n, fs) => h matches HirPattern::Struct(m, hs) && m@ == n@ && hs@.len()
            == fs@.len() && forall|i: int|
            0 <= i < fs@.len() ==> (#[trigger] hs@[i]).0@ == fs@[i].0@ && pat_ok(fs@[i].1, hs@[i].1),
        Pattern::Or(ps) => h matches HirPattern::Or(hs) && hs@.len() == ps@.len() && forall|i: int|
            0 <= i < ps@.len() ==> pat_ok(#[trigger] ps@[i], hs@[i]),
        Pattern::List(ps, _) => h matches HirPattern::Constructor(m, hs) && m@ == "List"@
            && hs@.len() == ps@.len() && forall|i: int|
            0 <= i < ps@.len() ==> pat_ok(#[trigger] ps@[i], hs@[i]),
    }
}

/// `h` is the parameter list `ps` lowered from scope `s`: each name is
/// registered, then its type lowered.
pub open spec fn params_ok(s: Scope, ps: Seq<Param>, hs: Seq<HirParam>) -> bool
    decreases ps.len(),
{
    if ps.len() == 0 {
        hs.len() == 0
    } else {
        &&& hs.len() == ps.len()
        &&& params_ok(s, ps.drop_last(), hs.drop_last())
        &&& hs.last().name@ == ps.last().name@
        &&& type_ok(st_params(s, ps).names, ps.last().ty, hs.last().ty)
    }
}

/// `h` calls the unresolved `to_string` on the lowering of `e`.
pub open spec fn to_string_ok(s: Scope, e: Expr, h: HirExpr) -> bool
    decreases e, 1nat,
{
    h matches HirExpr::Call(hf, hargs) && (*hf matches HirExpr::Var(m, id) && m@ == "to_string"@
        && id == UNRESOLVED) && hargs@.len() == 1 && expr_ok(s, e, hargs@[0])
}

/// A literal part lowers to a string literal, an interpolated one to a
/// `to_string` call.
pub open spec fn part_ok(s: Scope, p: StrPart, h: HirExpr) -> bool
    decreases p,
{
    match p {
        StrPart::Literal(t) => h matches HirExpr::StrLit(u) && u@ == t@,
        StrPart::Expr(x) => to_string_ok(s, x, h),
    }
}

/// `h` is the left-nested `+` of the lowered parts; no parts give the empty
/// string literal.
pub open spec fn concat_ok(s: Scope, ps: Seq<StrPart>, h: HirExpr) -> bool
    decreases ps,
{
    if ps.len() == 0 {
        h matches HirExpr::StrLit(u) && u@ == Seq::<char>::empty()
    } else if ps.len() == 1 {
        part_ok(s, ps[0], h)
    } else {
        h matches HirExpr::BinOp(hl, op, hr) && op == HirBinOp::Add && concat_ok(
            s,
            ps.drop_last(),
            *hl,
        ) && part_ok(st_parts(s, ps.drop_last()), ps.last(), *hr)
    }
}

/// `h` is `e` lowered from scope `s`.
pub open spec fn expr_ok(s: Scope, e: Expr, h: HirExpr) -> bool
    decreases e, 0nat,
{
    match e {
        Expr::IntLit(v) => h == HirExpr::IntLit(v),
        Expr::FloatLit(v) => h == HirExpr::FloatLit(v),
        Expr::StrLit(t) => h matches HirExpr::StrLit(u) && u@ == t@,
        Expr::BoolLit(b) => h == HirExpr::BoolLit(b),
        Expr::CharLit(c) => h == HirExpr::CharLit(c),
        Expr::Var(n) => h matches HirExpr::Var(m, id) && m@ == n@ && id == resolved(s.names, n@),
        Expr::BinOp(a, op, b) => h matches HirExpr::BinOp(ha, hop, hb) && hop == binop_of(op)
            && expr_ok(s, *a, *ha) && expr_ok(st_expr(s, *a), *b, *hb),
        Expr::UnaryOp(op, a) => h matches HirExpr::UnaryOp(hop, ha) && hop == unaryop_of(op)
            && expr_ok(s, *a, *ha),
        Expr::Call(f, args) => h matches HirExpr::Call(hf, hargs) && expr_ok(s, *f, *hf)
            && exprs_ok(st_expr(s, *f), args@, hargs@),
        Expr::Pipe(a, f) => h matches HirExpr::Call(hf, hargs) && hargs@.len() == 1 && expr_ok(
            s,
            *a,
            hargs@[0],
        ) && expr_ok(st_expr(s, *a), *f, *hf),
        Expr::Lambda(ps, b) => h matches HirExpr::Lambda(hps, hb) && params_ok(s, ps@, hps@)
            && expr_ok(st_params(s, ps@), *b, *hb),
        Expr::If(c, t, el) => h matches HirExpr::If(hc, ht, hel) && expr_ok(s, *c, *hc) && expr_ok(
            st_expr(s, *c),
            *t,
            *ht,
        ) && match (el, hel) {
            (Some(x), Some(hx)) => expr_ok(st_expr(st_expr(s, *c), *t), *x, *hx),
            (None, None) => true,
            _ => false,
        },
        Expr::Match(sc, arms) => h matches HirExpr::Match(hsc, harms) && expr_ok(s, *sc, *hsc)
            && arms_ok(st_expr(s, *sc), arms@, harms@),
        Expr::Block(stmts, tail) => h matches HirExpr::Block(hstmts, htail) && stmts_ok(
            s,
            stmts@,
            hstmts@,
        ) && match (tail, htail) {
            (Some(x), Some(hx)) => expr_ok(st_stmts(s, stmts@), *x, *hx),
            (None, None) => true,
            _ => false,
        },
        Expr::StructLit(n, fs) => h matches HirExpr::StructLit(m, hfs) && m@ == n@ && fields_ok(
            s,
            fs@,
            hfs@,
        ),
        Expr::FieldAccess(a, f) => h matches HirExpr::FieldAccess(ha, g) && g@ == f@ && expr_ok(
            s,
            *a,
            *ha,
        ),
        Expr::Try(a) => h matches HirExpr::Try(ha) && expr_ok(s, *a, *ha),
        Expr::Spawn(a) => h matches HirExpr::Spawn(ha) && expr_ok(s, *a, *ha),
        Expr::Await(a) => h matches HirExpr::Await(ha) && expr_ok(s, *a, *ha),
        Expr::Throw(a) => h matches HirExpr::Throw(ha) && expr_ok(s, *a, *ha),
        Expr::ChannelNew { elem_type: _, buffer } => h matches HirExpr::Call(hf, hargs) && (
        *hf matches HirExpr::FieldAccess(hv, m) && m@ == "new"@ && (*hv matches HirExpr::Var(
            c,
            id,
        ) && c@ == "Channel"@ && id == UNRESOLVED)) && hargs@.len() == 1 && expr_ok(
            s,
            *buffer,
            hargs@[0],
        ),
        Expr::Return(x) => h matches HirExpr::Return(hx) && match (x, hx) {
            (Some(y), Some(hy)) => expr_ok(s, *y, *hy),
            (None, None) => true,
            _ => false,
        },
        Expr::List(es) => h matches HirExpr::List(hs) && exprs_ok(s, es@, hs@),
        Expr::Hole(n, _) => h matches HirExpr::Hole(m) && m@ == hole_label(n),
        Expr::FString(parts) => concat_ok(s, parts@, h),
        Expr::TString(parts) => concat_ok(s, parts@, h),
        Expr::ParallelScope { lanes: _, body } => expr_ok(s, *body, h),
        Expr::Select(arms) => if arms@.len() > 0 {
            match arms@[0] {
                SelectArm::Recv { binding: _, source: _, body } => expr_ok(s, body, h),
                SelectArm::Timeout { duration: _, body } => expr_ok(s, body, h),
            }
        } else {
            h matches HirExpr::StrLit(u) && u@ == Seq::<char>::empty()
        },
        Expr::Placeholder => false,
        Expr::Perform { effect: _, operation, args } => h matches HirExpr::Call(hf, hargs) && (
        *hf matches HirExpr::Var(m, id) && m@ == operation@ && id == UNRESOLVED) && exprs_ok(
            s,
            args@,
            hargs@,
        ),
        Expr::Handle { body, handlers: _ } => expr_ok(s, *body, h),
    }
}

/// Each expression lowered in turn, the scope threaded through.
pub open spec fn exprs_ok(s: Scope, es: Seq<Expr>, hs: Seq<HirExpr>) -> bool
    decreases es,
{
    if es.len() == 0 {
        hs.len() == 0
    } else {
        &&& hs.len() == es.len()
        &&& exprs_ok(s, es.drop_last(), hs.drop_last())
        &&& expr_ok(st_exprs(s, es.drop_last()), es.last(), hs.last())
    }
}

/// A `let` registers its name, then lowers its type and initializer.
pub open spec fn stmt_ok(s: Scope, st: Stmt, h: HirStmt) -> bool
    decreases st,
{
    match st {
        Stmt::Let(n, ty, init) => h matches HirStmt::Let(m, hty, hinit) && m@ == n@ && opt_type_ok(
            reg(s, n@).names,
            ty,
            hty,
        ) && expr_ok(reg(s, n@), init, hinit),
        Stmt::Expr(x) => h matches HirStmt::Expr(hx) && expr_ok(s, x, hx),
    }
}

pub open spec fn stmts_ok(s: Scope, sts: Seq<Stmt>, hs: Seq<HirStmt>) -> bool
    decreases sts,
{
    if sts.len() == 0 {
        hs.len() == 0
    } else {
        &&& hs.len() == sts.len()
        &&& stmts_ok(s, sts.drop_last(), hs.drop_last())
        &&& stmt_ok(st_stmts(s, sts.drop_last()), sts.last(), hs.last())
    }
}

/// An arm lowers its pattern, then its guard, then its body.
pub open spec fn arm_ok(s: Scope, arm: MatchArm, h: HirMatchArm) -> bool
    decreases arm,
{
    let s1 = st_pat(s, arm.pattern);
    &&& pat_ok(arm.pattern, h.pattern)
    &&& match (arm.guard, h.guard) {
        (Some(g), Some(hg)) => expr_ok(s1, g, hg) && expr_ok(st_expr(s1, g), arm.body, h.body),
        (None, None) => expr_ok(s1, arm.body, h.body),
        _ => false,
    }
}

pub open spec fn arms_ok(s: Scope, arms: Seq<MatchArm>, hs: Seq<HirMatchArm>) -> bool
    decreases arms,
{
    if arms.len() == 0 {
        hs.len() == 0
    } else {
        &&& hs.len() == arms.len()
        &&& arms_ok(s, arms.drop_last(), hs.drop_last())
        &&& arm_ok(st_arms(s, arms.drop_last()), arms.last(), hs.last())
    }
}

pub open spec fn fields_ok(s: Scope, fs: Seq<(String, Expr)>, hs: Seq<(String, HirExpr)>) -> bool
    decreases fs,
{
    if fs.len() == 0 {
        hs.len() == 0
    } else {
        &&& hs.len() == fs.len()
        &&& fields_ok(s, fs.drop_last(), hs.drop_last())
        &&& hs.last().0@ == fs.last().0@
        &&& expr_ok(st_fields(s, fs.drop_last()), fs.last().1, hs.last().1)
    }
}

// ---------------------------------------------------------------------------
// Definitions and items
// ---------------------------------------------------------------------------

/// The names of a `uses` clause; none when it is absent.
pub open spec fn uses_names(u: Option<Vec<String>>) -> Set<Seq<char>> {
    match u {
        Some(v) => views(v@).to_set(),
        None => Set::empty(),
    }
}

/// Lowering a function definition reaches no placeholder.
pub open spec fn fn_lowerable(f: FnDef) -> bool {
    match f.body {
        Some(b) => lowerable(b),
        None => true,
    }
}

/// The scope after a function: parameters registered, then its body lowered.
pub open spec fn st_fn(s: Scope, f: FnDef) -> Scope {
    let s1 = st_params(s, f.params@);
    match f.body {
        Some(b) => st_expr(s1, b),
        None => s1,
    }
}

/// `h` is the function `f` lowered from scope `s`: its id is what its name
/// resolves to on entry; parameters are registered and lowered, then the
/// return type and body are lowered; the `uses` names are kept in
/// increasing order without repeats; the error types and the compute term
/// of the cost clause are lowered in the scope the body leaves.
pub open spec fn fn_ok(s: Scope, f: FnDef, h: HirFnDef) -> bool {
    let s1 = st_params(s, f.params@);
    let s2 = st_fn(s, f);
    &&& h.name@ == f.name@
    &&& h.def_id == resolved(s.names, f.name@)
    &&& params_ok(s, f.params@, h.params@)
    &&& opt_type_ok(s1.names, f.return_type, h.return_type)
    &&& match (f.body, h.body) {
        (Some(b), Some(hb)) => expr_ok(s1, b, hb),
        (None, None) => true,
        _ => false,
    }
    &&& sorted(views(h.uses_clause@))
    &&& views(h.uses_clause@).to_set() == uses_names(f.uses_clause)
    &&& types_ok(s2.names, f.errors@, h.throws@)
    &&& h.where_clause@.len() == f.where_clause@.len()
    &&& forall|i: int|
        0 <= i < f.where_clause@.len() ==> (#[trigger] h.where_clause@[i]).type_var@
            == f.where_clause@[i].type_var@ && h.where_clause@[i].bound@
            == f.where_clause@[i].bound@
    &&& match (f.cost_clause, h.cost_bound) {
        (Some(cc), Some(hb)) => cost_ok(s2.names, cc.compute, *hb),
        (None, None) => true,
        _ => false,
    }
}

/// Function definitions lowered in turn, the scope threaded through.
pub open spec fn st_fns(s: Scope, fs: Seq<FnDef>) -> Scope
    decreases fs.len(),
{
    if fs.len() == 0 {
        s
    } else {
        st_fn(st_fns(s, fs.drop_last()), fs.last())
    }
}

pub open spec fn fns_ok(s: Scope, fs: Seq<FnDef>, hs: Seq<HirFnDef>) -> bool
    decreases fs.len(),
{
    if fs.len() == 0 {
        hs.len() == 0
    } else {
        &&& hs.len() == fs.len()
        &&& fns_ok(s, fs.drop_last(), hs.drop_last())
        &&& fn_ok(st_fns(s, fs.drop_last()), fs.last(), hs.last())
    }
}

pub open spec fn fns_lowerable(fs: Seq<FnDef>) -> bool {
    forall|i: int| 0 <= i < fs.len() ==> fn_lowerable(#[trigger] fs[i])
}

/// `h` is the struct `d` lowered under `names`.
pub open spec fn struct_ok(names: Map<Seq<char>, u32>, d: StructDef, h: HirStructDef) -> bool {
    &&& h.name@ == d.name@
    &&& h.def_id == resolved(names, d.name@)
    &&& views(h.type_params@) == views(d.type_params@)
    &&& h.fields@.len() == d.fields@.len()
    &&& forall|i: int|
        0 <= i < d.fields@.len() ==> (#[trigger] h.fields@[i]).0@ == d.fields@[i].name@ && type_ok(
            names,
            d.fields@[i].ty,
            h.fields@[i].1,
        )
}

/// `h` is the sum type `d` lowered under `names`.
pub open spec fn typedef_ok(names: Map<Seq<char>, u32>, d: TypeDef, h: HirTypeDef) -> bool {
    &&& h.name@ == d.name@
    &&& h.def_id == resolved(names, d.name@)
    &&& views(h.type_params@) == views(d.type_params@)
    &&& h.variants@.len() == d.variants@.len()
    &&& forall|i: int|
        0 <= i < d.variants@.len() ==> (#[trigger] h.variants@[i]).name@ == d.variants@[i].name@
            && types_ok(names, d.variants@[i].fields@, h.variants@[i].fields@)
}

/// `h` is the capability (or trait) `c` lowered from scope `s`.
pub open spec fn capability_ok(s: Scope, c: CapabilityDef, h: HirCapabilityDef) -> bool {
    &&& h.name@ == c.name@
    &&& h.def_id == resolved(s.names, c.name@)
    &&& views(h.type_params@) == views(c.type_params@)
    &&& fns_ok(s, c.methods@, h.methods@)
}

/// `h` is the implementation `d` lowered from scope `s`.
pub open spec fn impl_ok(s: Scope, d: ImplDef, h: HirImplDef) -> bool {
    &&& h.capability@ == d.capability@
    &&& h.target_type@ == d.target_type@
    &&& fns_ok(s, d.methods@, h.methods@)
}

/// The items that have a HIR form: functions, structs, sum types,
/// capabilities and traits (as capabilities) and implementations.
pub open spec fn has_hir_form(it: Item) -> bool {
    match it {
        Item::Function(_) | Item::StructDef(_) | Item::TypeDef(_) | Item::CapabilityDef(_)
        | Item::TraitDef(_) | Item::ImplDef(_) => true,
        _ => false,
    }
}

/// `h` is the item `it` lowered from scope `s`.
pub open spec fn item_ok(s: Scope, it: Item, h: HirItem) -> bool {
    match it {
        Item::Function(f) => h matches HirItem::Function(hf) && fn_ok(s, f, hf),
        Item::StructDef(d) => h matches HirItem::StructDef(hd) && struct_ok(s.names, d, hd),
        Item::TypeDef(d) => h matches HirItem::TypeDef(hd) && typedef_ok(s.names, d, hd),
        Item::CapabilityDef(c) => h matches HirItem::CapabilityDef(hc) && capability_ok(s, c, hc),
        Item::TraitDef(c) => h matches HirItem::CapabilityDef(hc) && capability_ok(s, c, hc),
        Item::ImplDef(d) => h matches HirItem::ImplDef(hd) && impl_ok(s, d, hd),
        _ => false,
    }
}

/// The scope after lowering an item.
pub open spec fn st_item(s: Scope, it: Item) -> Scope {
    match it {
        Item::Function(f) => st_fn(s, f),
        Item::CapabilityDef(c) => st_fns(s, c.methods@),
        Item::TraitDef(c) => st_fns(s, c.methods@),
        Item::ImplDef(d) => st_fns(s, d.methods@),
        _ => s,
    }
}

pub open spec fn st_items(s: Scope, its: Seq<Item>) -> Scope
    decreases its.len(),
{
    if its.len() == 0 {
        s
    } else {
        st_item(st_items(s, its.drop_last()), its.last())
    }
}

/// `hs` holds, in order, the lowering of each item of `its` that has a HIR
/// form; the others leave nothing.
pub open spec fn items_ok(s: Scope, its: Seq<Item>, hs: Seq<HirItem>) -> bool
    decreases its.len(),
{
    if its.len() == 0 {
        hs.len() == 0
    } else if has_hir_form(its.last()) {
        &&& hs.len() > 0
        &&& items_ok(s, its.drop_last(), hs.drop_last())
        &&& item_ok(st_items(s, its.drop_last()), its.last(), hs.last())
    } else {
        items_ok(s, its.drop_last(), hs)
    }
}

/// The name an item declares at the top level, if any.
pub open spec fn declared_name(it: Item) -> Option<Seq<char>> {
    match it {
        Item::Function(f) => Some(f.name@),
        Item::StructDef(d) => Some(d.name@),
        Item::TypeDef(d) => Some(d.name@),
        Item::CapabilityDef(c) => Some(c.name@),
        Item::TraitDef(c) => Some(c.name@),
        Item::EffectDef(d) => Some(d.name@),
        Item::Const(n) => Some(n@),
        _ => None,
    }
}

/// The scope after registering the top-level names, in order.
pub open spec fn st_decls(s: Scope, its: Seq<Item>) -> Scope
    decreases its.len(),
{
    if its.len() == 0 {
        s
    } else {
        match declared_name(its.last()) {
            Some(n) => reg(st_decls(s, its.drop_last()), n),
            None => st_decls(s, its.drop_last()),
        }
    }
}

/// Lowering the item reaches no placeholder.
pub open spec fn item_lowerable(it: Item) -> bool {
    match it {
        Item::Function(f) => fn_lowerable(f),
        Item::CapabilityDef(c) => fns_lowerable(c.methods@),
        Item::TraitDef(c) => fns_lowerable(c.methods@),
        Item::ImplDef(d) => fns_lowerable(d.methods@),
        _ => true,
    }
}

/// Lowering the module reaches no placeholder.
pub open spec fn module_lowerable(m: Module) -> bool {
    forall|i: int| 0 <= i < m.items@.len() ==> item_lowerable(#[trigger] m.items@[i])
}

/// The empty string literal.
fn empty_str_lit() -> (h: HirExpr)
    ensures
        h matches HirExpr::StrLit(u) && u@ == Seq::<char>::empty(),
{
    proof {
        reveal_strlit("");
    }
    HirExpr::StrLit(string_of(""))
}

// ---------------------------------------------------------------------------
// The lowering state
// ---------------------------------------------------------------------------

/// The state of one lowering run: the registered names and the next id.
pub struct Lowering {
    next_def_id: DefId,
    names: NameMap<DefId>,
}

impl View for Lowering {
    type V = Scope;

    closed spec fn view(&self) -> Scope {
        Scope { names: self.names@, next: self.next_def_id }
    }
}

impl Default for Lowering {
    fn default() -> (r: Self)
        ensures
            r@ == empty_scope(),
    {
        Self::new()
    }
}

impl Lowering {
    pub fn new() -> (r: Self)
        ensures
            r@ == empty_scope(),
    {
        Lowering { next_def_id: 0, names: NameMap::new() }
    }

    /// Hands out the next id. Once the largest id is reached it is handed out
    /// again.
    fn fresh_def_id(&mut self) -> (id: DefId)
        ensures
            id == old(self)@.next,
            final(self)@.names == old(self)@.names,
            final(self)@.next == if old(self)@.next < u32::MAX {
                (old(self)@.next + 1) as u32
            } else {
                old(self)@.next
            },
    {
        let id = self.next_def_id;
        if self.next_def_id < u32::MAX {
            self.next_def_id = self.next_def_id + 1;
        }
        id
    }

    /// The id of `name`, registering it first if it is new.
    fn register_name(&mut self, name: &str) -> (id: DefId)
        ensures
            final(self)@ == reg(old(self)@, name@),
            id == final(self)@.names[name@],
    {
        match self.names.get(name) {
            Some(id) => *id,
            None => {
                let id = self.fresh_def_id();
                self.names.insert(string_of(name), id);
                id
            },
        }
    }

    /// The id `name` resolves to.
    fn resolve_name(&self, name: &str) -> (id: DefId)
        ensures
            id == resolved(self@.names, name@),
    {
        match self.names.get(name) {
            Some(id) => *id,
            None => UNRESOLVED,
        }
    }

    /// Lowers a written type.
    fn lower_type_expr(&self, te: &TypeExpr) -> (h: HirTypeRef)
        ensures
            type_ok(self@.names, *te, h),
        decreases te,
    {
        match te {
            TypeExpr::Named(name) => {
                let n = name.as_str();
                if str_eq(n, "Int") || str_eq(n, "I8") || str_eq(n, "I16") || str_eq(n, "I32")
                    || str_eq(n, "I64") || str_eq(n, "U8") || str_eq(n, "U16") || str_eq(n, "U32")
                    || str_eq(n, "U64") {
                    HirTypeRef::Primitive(PrimitiveTy::Int)
                } else if str_eq(n, "F32") || str_eq(n, "F64") {
                    HirTypeRef::Primitive(PrimitiveTy::Float)
                } else if str_eq(n, "Bool") {
                    HirTypeRef::Primitive(PrimitiveTy::Bool)
                } else if str_eq(n, "Str") {
                    HirTypeRef::Primitive(PrimitiveTy::Str)
                } else if str_eq(n, "Char") {
                    HirTypeRef::Primitive(PrimitiveTy::Char)
                } else if str_eq(n, "Never") {
                    HirTypeRef::Primitive(PrimitiveTy::Never)
                } else {
                    HirTypeRef::Named(name.clone(), self.resolve_name(n))
                }
            },
            TypeExpr::Hole(name) => {
                let label = match name {
                    Some(x) => x.clone(),
                    None => string_of("_"),
                };
                HirTypeRef::Named(label, UNRESOLVED)
            },
            TypeExpr::Generic(name, args) => {
                let hs = self.lower_type_exprs(args);
                HirTypeRef::Generic(name.clone(), hs)
            },
            TypeExpr::Function(params, ret, _) => {
                let hs = self.lower_type_exprs(params);
                let hr = self.lower_type_expr(ret);
                HirTypeRef::Function(hs, Box::new(hr))
            },
            TypeExpr::Tuple(ts) => {
                if ts.len() == 0 {
                    HirTypeRef::Primitive(PrimitiveTy::Unit)
                } else {
                    let hs = self.lower_type_exprs(ts);
                    HirTypeRef::Generic(string_of("Tuple"), hs)
                }
            },
            TypeExpr::Refinement(base, _, _) => self.lower_type_expr(base),
            TypeExpr::Record(fields) => {
                let mut hs: Vec<(String, Box<HirTypeRef>)> = Vec::new();
                let mut i: usize = 0;
                #[verifier::loop_isolation(false)]
                while i < fields.len()
                    invariant
                        i <= fields@.len(),
                        hs@.len() == i,
                        forall|k: int|
                            0 <= k < i ==> (#[trigger] hs@[k]).0@ == fields@[k].0@ && type_ok(
                                self@.names,
                                fields@[k].1,
                                *hs@[k].1,
                            ),
                    decreases fields.len() - i,
                {
                    let f = &fields[i];
                    proof {
                        assert(decreases_to!(*te => fields@[i as int].1));
                    }
                    let ht = self.lower_type_expr(&f.1);
                    hs.push((f.0.clone(), Box::new(ht)));
                    i = i + 1;
                }
                HirTypeRef::Record(hs)
            },
        }
    }

    /// Lowers each written type, in order.
    fn lower_type_exprs(&self, ts: &Vec<TypeExpr>) -> (hs: Vec<HirTypeRef>)
        ensures
            types_ok(self@.names, ts@, hs@),
        decreases ts@,
    {
        let mut hs: Vec<HirTypeRef> = Vec::new();
        let mut i: usize = 0;
        while i < ts.len()
            invariant
                i <= ts@.len(),
                hs@.len() == i,
                forall|k: int| 0 <= k < i ==> type_ok(self@.names, #[trigger] ts@[k], hs@[k]),
            decreases ts.len() - i,
        {
            let h = self.lower_type_expr(&ts[i]);
            hs.push(h);
            i = i + 1;
        }
        hs
    }

    fn lower_opt_type(&self, te: &Option<TypeExpr>) -> (h: Option<HirTypeRef>)
        ensures
            opt_type_ok(self@.names, *te, h),
    {
        match te {
            Some(t) => Some(self.lower_type_expr(t)),
            None => None,
        }
    }

    /// Lowers an expression.
    fn lower_expr(&mut self, expr: &Expr) -> (h: HirExpr)
        requires
            lowerable(*expr),
        ensures
            expr_ok(old(self)@, *expr, h),
            final(self)@ == st_expr(old(self)@, *expr),
        decreases expr,
    {
        match expr {
            Expr::IntLit(v) => HirExpr::IntLit(*v),
            Expr::FloatLit(v) => HirExpr::FloatLit(*v),
            Expr::StrLit(v) => HirExpr::StrLit(v.clone()),
            Expr::BoolLit(v) => HirExpr::BoolLit(*v),
            Expr::FString(parts) => self.lower_string_parts(parts),
            Expr::TString(parts) => self.lower_string_parts(parts),
            Expr::Var(name) => {
                let def_id = self.resolve_name(name.as_str());
                HirExpr::Var(name.clone(), def_id)
            },
            Expr::BinOp(lhs, op, rhs) => {
                let hl = self.lower_expr(lhs);
                let hr = self.lower_expr(rhs);
                HirExpr::BinOp(Box::new(hl), lower_binop(op), Box::new(hr))
            },
            Expr::UnaryOp(op, inner) => {
                let hi = self.lower_expr(inner);
                HirExpr::UnaryOp(lower_unaryop(op), Box::new(hi))
            },
            Expr::Call(callee, args) => {
                let hf = self.lower_expr(callee);
                let hargs = self.lower_exprs(args);
                HirExpr::Call(Box::new(hf), hargs)
            },
            // `lhs |> rhs` becomes `rhs(lhs)`.
            Expr::Pipe(lhs, rhs) => {
                let arg = self.lower_expr(lhs);
                let func = self.lower_expr(rhs);
                HirExpr::Call(Box::new(func), vec![arg])
            },
            Expr::Lambda(params, body) => {
                let hps = self.lower_params(params);
                let hb = self.lower_expr(body);
                HirExpr::Lambda(hps, Box::new(hb))
            },
            Expr::If(cond, then_br, else_br) => {
                let hc = self.lower_expr(cond);
                let ht = self.lower_expr(then_br);
                let he = match else_br {
                    Some(e) => Some(Box::new(self.lower_expr(e))),
                    None => None,
                };
                HirExpr::If(Box::new(hc), Box::new(ht), he)
            },
            Expr::Match(scrutinee, arms) => {
                let hs = self.lower_expr(scrutinee);
                let harms = self.lower_arms(arms);
                HirExpr::Match(Box::new(hs), harms)
            },
            Expr::Block(stmts, tail) => {
                let hstmts = self.lower_stmts(stmts);
                let htail = match tail {
                    Some(e) => Some(Box::new(self.lower_expr(e))),
                    None => None,
                };
                HirExpr::Block(hstmts, htail)
            },
            Expr::FieldAccess(inner, field) => {
                let hi = self.lower_expr(inner);
                HirExpr::FieldAccess(Box::new(hi), field.clone())
            },
            Expr::StructLit(name, fields) => {
                let hfs = self.lower_fields(fields);
                HirExpr::StructLit(name.clone(), hfs)
            },
            Expr::Try(inner) => HirExpr::Try(Box::new(self.lower_expr(inner))),
            Expr::Spawn(inner) => HirExpr::Spawn(Box::new(self.lower_expr(inner))),
            Expr::Await(inner) => HirExpr::Await(Box::new(self.lower_expr(inner))),
            Expr::ChannelNew { buffer, .. } => {
                let callee = HirExpr::FieldAccess(
                    Box::new(HirExpr::Var(string_of("Channel"), UNRESOLVED)),
                    string_of("new"),
                );
                let hb = self.lower_expr(buffer);
                HirExpr::Call(Box::new(callee), vec![hb])
            },
            Expr::Return(inner) => {
                let hi = match inner {
                    Some(e) => Some(Box::new(self.lower_expr(e))),
                    None => None,
                };
                HirExpr::Return(hi)
            },
            Expr::Throw(inner) => HirExpr::Throw(Box::new(self.lower_expr(inner))),
            Expr::List(elems) => HirExpr::List(self.lower_exprs(elems)),
            Expr::CharLit(c) => HirExpr::CharLit(*c),
            Expr::Hole(name, _) => {
                let label = match name {
                    Some(x) => x.clone(),
                    None => string_of("_"),
                };
                HirExpr::Hole(label)
            },
            // A parallel scope lowers to its body.
            Expr::ParallelScope { body, .. } => self.lower_expr(body),
            // A select lowers to the body of its first arm; an empty one to
            // the empty string.
            Expr::Select(arms) => {
                if arms.len() > 0 {
                    match &arms[0] {
                        SelectArm::Recv { body, .. } => self.lower_expr(body),
                        SelectArm::Timeout { body, .. } => self.lower_expr(body),
                    }
                } else {
                    empty_str_lit()
                }
            },
            Expr::Placeholder => {
                proof {
                    assert(false);
                }
                empty_str_lit()
            },
            // `perform` becomes a call of the unresolved operation.
            Expr::Perform { operation, args, .. } => {
                let callee = HirExpr::Var(operation.clone(), UNRESOLVED);
                let hargs = self.lower_exprs(args);
                HirExpr::Call(Box::new(callee), hargs)
            },
            // A handled body lowers to the body itself.
            Expr::Handle { body, .. } => self.lower_expr(body),
        }
    }

    /// Lowers each expression in turn.
    fn lower_exprs(&mut self, es: &Vec<Expr>) -> (hs: Vec<HirExpr>)
        requires
            forall|k: int| 0 <= k < es@.len() ==> lowerable(#[trigger] es@[k]),
        ensures
            exprs_ok(old(self)@, es@, hs@),
            final(self)@ == st_exprs(old(self)@, es@),
        decreases es@,
    {
        let ghost s0 = self@;
        let mut hs: Vec<HirExpr> = Vec::new();
        let mut i: usize = 0;
        assert(es@.take(0) =~= Seq::<Expr>::empty());
        assert(hs@ =~= Seq::<HirExpr>::empty());
        while i < es.len()
            invariant
                i <= es@.len(),
                forall|k: int| 0 <= k < es@.len() ==> lowerable(#[trigger] es@[k]),
                self@ == st_exprs(s0, es@.take(i as int)),
                exprs_ok(s0, es@.take(i as int), hs@),
            decreases es.len() - i,
        {
            let h = self.lower_expr(&es[i]);
            let ghost prev = hs@;
            hs.push(h);
            assert(es@.take(i + 1).drop_last() =~= es@.take(i as int));
            assert(hs@.drop_last() =~= prev);
            i = i + 1;
        }
        assert(es@.take(es.len() as int) =~= es@);
        hs
    }

    /// Registers each parameter and lowers its type.
    fn lower_params(&mut self, ps: &Vec<Param>) -> (hs: Vec<HirParam>)
        ensures
            params_ok(old(self)@, ps@, hs@),
            final(self)@ == st_params(old(self)@, ps@),
    {
        let ghost s0 = self@;
        let mut hs: Vec<HirParam> = Vec::new();
        let mut i: usize = 0;
        assert(ps@.take(0) =~= Seq::<Param>::empty());
        assert(hs@ =~= Seq::<HirParam>::empty());
        while i < ps.len()
            invariant
                i <= ps@.len(),
                self@ == st_params(s0, ps@.take(i as int)),
                params_ok(s0, ps@.take(i as int), hs@),
            decreases ps.len() - i,
        {
            let p = &ps[i];
            self.register_name(p.name.as_str());
            let ty = self.lower_type_expr(&p.ty);
            let ghost prev = hs@;
            hs.push(HirParam { name: p.name.clone(), ty });
            assert(ps@.take(i + 1).drop_last() =~= ps@.take(i as int));
            assert(hs@.drop_last() =~= prev);
            i = i + 1;
        }
        assert(ps@.take(ps.len() as int) =~= ps@);
        hs
    }

    /// Lowers a string part: a literal to itself, an interpolation to a
    /// `to_string` call on it.
    fn lower_string_part(&mut self, part: &StrPart) -> (h: HirExpr)
        requires
            match *part {
                StrPart::Expr(x) => lowerable(x),
                StrPart::Literal(_) => true,
            },
        ensures
            part_ok(old(self)@, *part, h),
            final(self)@ == match *part {
                StrPart::Expr(x) => st_expr(old(self)@, x),
                StrPart::Literal(_) => old(self)@,
            },
        decreases part,
    {
        match part {
            StrPart::Literal(t) => HirExpr::StrLit(t.clone()),
            StrPart::Expr(e) => {
                let inner = self.lower_expr(e);
                HirExpr::Call(
                    Box::new(HirExpr::Var(string_of("to_string"), UNRESOLVED)),
                    vec![inner],
                )
            },
        }
    }

    /// Lowers an f-string or t-string to the left-nested concatenation of
    /// its parts.
    fn lower_string_parts(&mut self, parts: &Vec<StrPart>) -> (h: HirExpr)
        requires
            forall|k: int| 0 <= k < parts@.len() ==> match #[trigger] parts@[k] {
                StrPart::Expr(x) => lowerable(x),
                StrPart::Literal(_) => true,
            },
        ensures
            concat_ok(old(self)@, parts@, h),
            final(self)@ == st_parts(old(self)@, parts@),
        decreases parts@,
    {
        let ghost s0 = self@;
        if parts.len() == 0 {
            return empty_str_lit();
        }
        let mut result: Option<HirExpr> = None;
        let mut i: usize = 0;
        assert(parts@.take(0) =~= Seq::<StrPart>::empty());
        while i < parts.len()
            invariant
                i <= parts@.len(),
                forall|k: int| 0 <= k < parts@.len() ==> match #[trigger] parts@[k] {
                    StrPart::Expr(x) => lowerable(x),
                    StrPart::Literal(_) => true,
                },
                self@ == st_parts(s0, parts@.take(i as int)),
                result is None <==> i == 0,
                result matches Some(r) ==> concat_ok(s0, parts@.take(i as int), r),
            decreases parts.len() - i,
        {
            let hp = self.lower_string_part(&parts[i]);
            assert(parts@.take(i + 1).drop_last() =~= parts@.take(i as int));
            assert(parts@.take(i + 1).last() == parts@[i as int]);
            result = match result {
                None => {
                    assert(parts@.take(1)[0] == parts@[0]);
                    Some(hp)
                },
                Some(acc) => Some(HirExpr::BinOp(Box::new(acc), HirBinOp::Add, Box::new(hp))),
            };
            i = i + 1;
        }
        assert(parts@.take(parts.len() as int) =~= parts@);
        match result {
            Some(r) => r,
            None => empty_str_lit(),
        }
    }

    /// Lowers a statement; a `let` registers its name first.
    fn lower_stmt(&mut self, stmt: &Stmt) -> (h: HirStmt)
        requires
            match *stmt {
                Stmt::Let(_, _, x) => lowerable(x),
                Stmt::Expr(x) => lowerable(x),
            },
        ensures
            stmt_ok(old(self)@, *stmt, h),
            final(self)@ == st_stmt(old(self)@, *stmt),
        decreases stmt,
    {
        match stmt {
            Stmt::Let(name, ty, init) => {
                self.register_name(name.as_str());
                let hty = self.lower_opt_type(ty);
                let hinit = self.lower_expr(init);
                HirStmt::Let(name.clone(), hty, hinit)
            },
            Stmt::Expr(e) => HirStmt::Expr(self.lower_expr(e)),
        }
    }

    fn lower_stmts(&mut self, stmts: &Vec<Stmt>) -> (hs: Vec<HirStmt>)
        requires
            forall|k: int| 0 <= k < stmts@.len() ==> match #[trigger] stmts@[k] {
                Stmt::Let(_, _, x) => lowerable(x),
                Stmt::Expr(x) => lowerable(x),
            },
        ensures
            stmts_ok(old(self)@, stmts@, hs@),
            final(self)@ == st_stmts(old(self)@, stmts@),
        decreases stmts@,
    {
        let ghost s0 = self@;
        let mut hs: Vec<HirStmt> = Vec::new();
        let mut i: usize = 0;
        assert(stmts@.take(0) =~= Seq::<Stmt>::empty());
        assert(hs@ =~= Seq::<HirStmt>::empty());
        while i < stmts.len()
            invariant
                i <= stmts@.len(),
                forall|k: int| 0 <= k < stmts@.len() ==> match #[trigger] stmts@[k] {
                    Stmt::Let(_, _, x) => lowerable(x),
                    Stmt::Expr(x) => lowerable(x),
                },
                self@ == st_stmts(s0, stmts@.take(i as int)),
                stmts_ok(s0, stmts@.take(i as int), hs@),
            decreases stmts.len() - i,
        {
            let h = self.lower_stmt(&stmts[i]);
            let ghost prev = hs@;
            hs.push(h);
            assert(stmts@.take(i + 1).drop_last() =~= stmts@.take(i as int));
            assert(hs@.drop_last() =~= prev);
            i = i + 1;
        }
        assert(stmts@.take(stmts.len() as int) =~= stmts@);
        hs
    }

    /// Lowers a match arm: pattern, guard, body.
    fn lower_match_arm(&mut self, arm: &MatchArm) -> (h: HirMatchArm)
        requires
            lowerable(arm.body),
            match arm.guard {
                Some(g) => lowerable(g),
                None => true,
            },
        ensures
            arm_ok(old(self)@, *arm, h),
            final(self)@ == st_arm(old(self)@, *arm),
        decreases arm,
    {
        let pattern = self.lower_pattern(&arm.pattern);
        let guard = match &arm.guard {
            Some(g) => Some(self.lower_expr(g)),
            None => None,
        };
        let body = self.lower_expr(&arm.body);
        HirMatchArm { pattern, guard, body }
    }

    fn lower_arms(&mut self, arms: &Vec<MatchArm>) -> (hs: Vec<HirMatchArm>)
        requires
            forall|k: int| 0 <= k < arms@.len() ==> lowerable((#[trigger] arms@[k]).body)
                && match arms@[k].guard {
                    Some(g) => lowerable(g),
                    None => true,
                },
        ensures
            arms_ok(old(self)@, arms@, hs@),
            final(self)@ == st_arms(old(self)@, arms@),
        decreases arms@,
    {
        let ghost s0 = self@;
        let mut hs: Vec<HirMatchArm> = Vec::new();
        let mut i: usize = 0;
        assert(arms@.take(0) =~= Seq::<MatchArm>::empty());
        assert(hs@ =~= Seq::<HirMatchArm>::empty());
        while i < arms.len()
            invariant
                i <= arms@.len(),
                forall|k: int| 0 <= k < arms@.len() ==> lowerable((#[trigger] arms@[k]).body)
                    && match arms@[k].guard {
                        Some(g) => lowerable(g),
                        None => true,
                    },
                self@ == st_arms(s0, arms@.take(i as int)),
                arms_ok(s0, arms@.take(i as int), hs@),
            decreases arms.len() - i,
        {
            let h = self.lower_match_arm(&arms[i]);
            let ghost prev = hs@;
            hs.push(h);
            assert(arms@.take(i + 1).drop_last() =~= arms@.take(i as int));
            assert(hs@.drop_last() =~= prev);
            i = i + 1;
        }
        assert(arms@.take(arms.len() as int) =~= arms@);
        hs
    }

    fn lower_fields(&mut self, fs: &Vec<(String, Expr)>) -> (hs: Vec<(String, HirExpr)>)
        requires
            forall|k: int| 0 <= k < fs@.len() ==> lowerable((#[trigger] fs@[k]).1),
        ensures
            fields_ok(old(self)@, fs@, hs@),
            final(self)@ == st_fields(old(self)@, fs@),
        decreases fs@,
    {
        let ghost s0 = self@;
        let mut hs: Vec<(String, HirExpr)> = Vec::new();
        let mut i: usize = 0;
        assert(fs@.take(0) =~= Seq::<(String, Expr)>::empty());
        assert(hs@ =~= Seq::<(String, HirExpr)>::empty());
        while i < fs.len()
            invariant
                i <= fs@.len(),
                forall|k: int| 0 <= k < fs@.len() ==> lowerable((#[trigger] fs@[k]).1),
                self@ == st_fields(s0, fs@.take(i as int)),
                fields_ok(s0, fs@.take(i as int), hs@),
            decreases fs.len() - i,
        {
            let f = &fs[i];
            proof {
                assert(decreases_to!(fs@ => fs@[i as int].1));
            }
            let h = self.lower_expr(&f.1);
            let ghost prev = hs@;
            hs.push((f.0.clone(), h));
            assert(fs@.take(i + 1).drop_last() =~= fs@.take(i as int));
            assert(hs@.drop_last() =~= prev);
            i = i + 1;
        }
        assert(fs@.take(fs.len() as int) =~= fs@);
        hs
    }

    /// Lowers a pattern, registering its variables.
    fn lower_pattern(&mut self, pat: &Pattern) -> (h: HirPattern)
        ensures
            pat_ok(*pat, h),
            final(self)@ == st_pat(old(self)@, *pat),
        decreases pat,
    {
        match pat {
            Pattern::Wildcard => HirPattern::Wildcard,
            Pattern::Var(name) => {
                self.register_name(name.as_str());
                HirPattern::Var(name.clone())
            },
            Pattern::IntLit(v) => HirPattern::IntLit(*v),
            Pattern::StrLit(v) => HirPattern::StrLit(v.clone()),
            Pattern::BoolLit(v) => HirPattern::BoolLit(*v),
            Pattern::Constructor(name, pats) => {
                let hs = self.lower_patterns(pats);
                HirPattern::Constructor(name.clone(), hs)
            },
            Pattern::Struct(name, fields) => {
                let hs = self.lower_pattern_fields(fields);
                HirPattern::Struct(name.clone(), hs)
            },
            Pattern::Or(pats) => HirPattern::Or(self.lower_patterns(pats)),
            // A list pattern becomes a `List` constructor of its elements.
            Pattern::List(elements, _) => {
                let hs = self.lower_patterns(elements);
                HirPattern::Constructor(string_of("List"), hs)
            },
        }
    }

    fn lower_patterns(&mut self, ps: &Vec<Pattern>) -> (hs: Vec<HirPattern>)
        ensures
            hs@.len() == ps@.len(),
            forall|k: int| 0 <= k < ps@.len() ==> pat_ok(#[trigger] ps@[k], hs@[k]),
            final(self)@ == st_pats(old(self)@, ps@),
        decreases ps@,
    {
        let ghost s0 = self@;
        let mut hs: Vec<HirPattern> = Vec::new();
        let mut i: usize = 0;
        assert(ps@.take(0) =~= Seq::<Pattern>::empty());
        while i < ps.len()
            invariant
                i <= ps@.len(),
                hs@.len() == i,
                forall|k: int| 0 <= k < i ==> pat_ok(#[trigger] ps@[k], hs@[k]),
                self@ == st_pats(s0, ps@.take(i as int)),
            decreases ps.len() - i,
        {
            let h = self.lower_pattern(&ps[i]);
            hs.push(h);
            assert(ps@.take(i + 1).drop_last() =~= ps@.take(i as int));
            i = i + 1;
        }
        assert(ps@.take(ps.len() as int) =~= ps@);
        hs
    }

    fn lower_pattern_fields(&mut self, fs: &Vec<(String, Pattern)>) -> (hs: Vec<
        (String, HirPattern),
    >)
        ensures
            hs@.len() == fs@.len(),
            forall|k: int|
                0 <= k < fs@.len() ==> (#[trigger] hs@[k]).0@ == fs@[k].0@ && pat_ok(
                    fs@[k].1,
                    hs@[k].1,
                ),
            final(self)@ == st_pfields(old(self)@, fs@),
        decreases fs@,
    {
        let ghost s0 = self@;
        let mut hs: Vec<(String, HirPattern)> = Vec::new();
        let mut i: usize = 0;
        assert(fs@.take(0) =~= Seq::<(String, Pattern)>::empty());
        while i < fs.len()
            invariant
                i <= fs@.len(),
                hs@.len() == i,
                forall|k: int|
                    0 <= k < i ==> (#[trigger] hs@[k]).0@ == fs@[k].0@ && pat_ok(
                        fs@[k].1,
                        hs@[k].1,
                    ),
                self@ == st_pfields(s0, fs@.take(i as int)),
            decreases fs.len() - i,
        {
            let f = &fs[i];
            proof {
                assert(decreases_to!(fs@ => fs@[i as int].1));
            }
            let h = self.lower_pattern(&f.1);
            hs.push((f.0.clone(), h));
            assert(fs@.take(i + 1).drop_last() =~= fs@.take(i as int));
            i = i + 1;
        }
        assert(fs@.take(fs.len() as int) =~= fs@);
        hs
    }

    /// Lowers a module: registers every top-level name, then lowers each
    /// item that has a HIR form, in order.
    pub fn lower_module(&mut self, module: &Module) -> (r: HirModule)
        requires
            module_lowerable(*module),
        ensures
            items_ok(st_decls(old(self)@, module.items@), module.items@, r.items@),
            final(self)@ == st_items(st_decls(old(self)@, module.items@), module.items@),
    {
        let ghost s0 = self@;
        let items = &module.items;
        let mut i: usize = 0;
        assert(items@.take(0) =~= Seq::<Item>::empty());
        while i < items.len()
            invariant
                i <= items@.len(),
                self@ == st_decls(s0, items@.take(i as int)),
            decreases items.len() - i,
        {
            match &items[i] {
                Item::Function(f) => {
                    self.register_name(f.name.as_str());
                },
                Item::StructDef(d) => {
                    self.register_name(d.name.as_str());
                },
                Item::TypeDef(d) => {
                    self.register_name(d.name.as_str());
                },
                Item::CapabilityDef(c) => {
                    self.register_name(c.name.as_str());
                },
                Item::TraitDef(c) => {
                    self.register_name(c.name.as_str());
                },
                Item::EffectDef(d) => {
                    self.register_name(d.name.as_str());
                },
                Item::Const(n) => {
                    self.register_name(n.as_str());
                },
                Item::ImplDef(_) | Item::Other => {},
            }
            assert(items@.take(i + 1).drop_last() =~= items@.take(i as int));
            i = i + 1;
        }
        assert(items@.take(items.len() as int) =~= items@);
        let ghost s1 = self@;
        let mut out: Vec<HirItem> = Vec::new();
        let mut j: usize = 0;
        assert(items@.take(0) =~= Seq::<Item>::empty());
        assert(out@ =~= Seq::<HirItem>::empty());
        while j < items.len()
            invariant
                j <= items@.len(),
                forall|k: int| 0 <= k < items@.len() ==> item_lowerable(#[trigger] items@[k]),
                self@ == st_items(s1, items@.take(j as int)),
                items_ok(s1, items@.take(j as int), out@),
            decreases items.len() - j,
        {
            let ghost prev = out@;
            assert(item_lowerable(items@[j as int]));
            let lowered = self.lower_item(&items[j]);
            match lowered {
                Some(h) => {
                    out.push(h);
                    assert(out@.drop_last() =~= prev);
                },
                None => {},
            }
            assert(items@.take(j + 1).drop_last() =~= items@.take(j as int));
            j = j + 1;
        }
        assert(items@.take(items.len() as int) =~= items@);
        HirModule { items: out }
    }

    /// Lowers one item, if it has a HIR form; a trait lowers as a
    /// capability.
    fn lower_item(&mut self, item: &Item) -> (r: Option<HirItem>)
        requires
            item_lowerable(*item),
        ensures
            r is Some <==> has_hir_form(*item),
            r matches Some(h) ==> item_ok(old(self)@, *item, h),
            final(self)@ == st_item(old(self)@, *item),
    {
        match item {
            Item::Function(f) => Some(HirItem::Function(self.lower_fn_def(f))),
            Item::StructDef(d) => Some(HirItem::StructDef(self.lower_struct_def(d))),
            Item::TypeDef(d) => Some(HirItem::TypeDef(self.lower_type_def(d))),
            Item::CapabilityDef(c) => Some(HirItem::CapabilityDef(self.lower_capability_def(c))),
            Item::TraitDef(c) => Some(HirItem::CapabilityDef(self.lower_capability_def(c))),
            Item::ImplDef(d) => Some(HirItem::ImplDef(self.lower_impl_def(d))),
            Item::EffectDef(_) | Item::Const(_) | Item::Other => None,
        }
    }

    /// Lowers a function definition.
    fn lower_fn_def(&mut self, f: &FnDef) -> (h: HirFnDef)
        requires
            fn_lowerable(*f),
        ensures
            fn_ok(old(self)@, *f, h),
            final(self)@ == st_fn(old(self)@, *f),
    {
        let def_id = self.resolve_name(f.name.as_str());
        let params = self.lower_params(&f.params);
        let return_type = self.lower_opt_type(&f.return_type);
        let body = match &f.body {
            Some(e) => Some(self.lower_expr(e)),
            None => None,
        };
        let uses_clause = match &f.uses_clause {
            Some(resources) => {
                let set = EffectSet::from_names(clone_names(resources.as_slice()));
                clone_names(set.iter())
            },
            None => Vec::new(),
        };
        proof {
            if f.uses_clause is None {
                assert(views(uses_clause@) =~= Seq::<Seq<char>>::empty());
                assert(views(uses_clause@).to_set() =~= Set::<Seq<char>>::empty());
            }
        }
        let throws = self.lower_type_exprs(&f.errors);
        let mut where_clause: Vec<HirTypeConstraint> = Vec::new();
        let mut i: usize = 0;
        while i < f.where_clause.len()
            invariant
                i <= f.where_clause@.len(),
                where_clause@.len() == i,
                forall|k: int|
                    0 <= k < i ==> (#[trigger] where_clause@[k]).type_var@
                        == f.where_clause@[k].type_var@ && where_clause@[k].bound@
                        == f.where_clause@[k].bound@,
            decreases f.where_clause.len() - i,
        {
            let c = &f.where_clause[i];
            where_clause.push(
                HirTypeConstraint { type_var: c.type_var.clone(), bound: c.bound.clone() },
            );
            i = i + 1;
        }
        let cost_bound = match &f.cost_clause {
            Some(cc) => Some(Box::new(self.lower_cost_expr(&cc.compute))),
            None => None,
        };
        HirFnDef {
            name: f.name.clone(),
            def_id,
            params,
            return_type,
            body,
            uses_clause,
            throws,
            where_clause,
            cost_bound,
        }
    }

    /// Lowers function definitions in turn.
    fn lower_fn_defs(&mut self, fs: &Vec<FnDef>) -> (hs: Vec<HirFnDef>)
        requires
            fns_lowerable(fs@),
        ensures
            fns_ok(old(self)@, fs@, hs@),
            final(self)@ == st_fns(old(self)@, fs@),
    {
        let ghost s0 = self@;
        let mut hs: Vec<HirFnDef> = Vec::new();
        let mut i: usize = 0;
        assert(fs@.take(0) =~= Seq::<FnDef>::empty());
        assert(hs@ =~= Seq::<HirFnDef>::empty());
        while i < fs.len()
            invariant
                i <= fs@.len(),
                fns_lowerable(fs@),
                self@ == st_fns(s0, fs@.take(i as int)),
                fns_ok(s0, fs@.take(i as int), hs@),
            decreases fs.len() - i,
        {
            assert(fn_lowerable(fs@[i as int]));
            let h = self.lower_fn_def(&fs[i]);
            let ghost prev = hs@;
            hs.push(h);
            assert(fs@.take(i + 1).drop_last() =~= fs@.take(i as int));
            assert(hs@.drop_last() =~= prev);
            i = i + 1;
        }
        assert(fs@.take(fs.len() as int) =~= fs@);
        hs
    }

    fn lower_struct_def(&self, d: &StructDef) -> (h: HirStructDef)
        ensures
            struct_ok(self@.names, *d, h),
    {
        let def_id = self.resolve_name(d.name.as_str());
        let mut fields: Vec<(String, HirTypeRef)> = Vec::new();
        let mut i: usize = 0;
        while i < d.fields.len()
            invariant
                i <= d.fields@.len(),
                fields@.len() == i,
                forall|k: int|
                    0 <= k < i ==> (#[trigger] fields@[k]).0@ == d.fields@[k].name@ && type_ok(
                        self@.names,
                        d.fields@[k].ty,
                        fields@[k].1,
                    ),
            decreases d.fields.len() - i,
        {
            let fd = &d.fields[i];
            let ty = self.lower_type_expr(&fd.ty);
            fields.push((fd.name.clone(), ty));
            i = i + 1;
        }
        HirStructDef {
            name: d.name.clone(),
            def_id,
            type_params: clone_names(d.type_params.as_slice()),
            fields,
        }
    }

    fn lower_type_def(&self, d: &TypeDef) -> (h: HirTypeDef)
        ensures
            typedef_ok(self@.names, *d, h),
    {
        let def_id = self.resolve_name(d.name.as_str());
        let mut variants: Vec<HirVariant> = Vec::new();
        let mut i: usize = 0;
        while i < d.variants.len()
            invariant
                i <= d.variants@.len(),
                variants@.len() == i,
                forall|k: int|
                    0 <= k < i ==> (#[trigger] variants@[k]).name@ == d.variants@[k].name@
                        && types_ok(self@.names, d.variants@[k].fields@, variants@[k].fields@),
            decreases d.variants.len() - i,
        {
            let v = &d.variants[i];
            let fields = self.lower_type_exprs(&v.fields);
            variants.push(HirVariant { name: v.name.clone(), fields });
            i = i + 1;
        }
        HirTypeDef {
            name: d.name.clone(),
            def_id,
            type_params: clone_names(d.type_params.as_slice()),
            variants,
        }
    }

    fn lower_capability_def(&mut self, c: &CapabilityDef) -> (h: HirCapabilityDef)
        requires
            fns_lowerable(c.methods@),
        ensures
            capability_ok(old(self)@, *c, h),
            final(self)@ == st_fns(old(self)@, c.methods@),
    {
        let def_id = self.resolve_name(c.name.as_str());
        let methods = self.lower_fn_defs(&c.methods);
        HirCapabilityDef {
            name: c.name.clone(),
            def_id,
            type_params: clone_names(c.type_params.as_slice()),
            methods,
        }
    }

    fn lower_impl_def(&mut self, d: &ImplDef) -> (h: HirImplDef)
        requires
            fns_lowerable(d.methods@),
        ensures
            impl_ok(old(self)@, *d, h),
            final(self)@ == st_fns(old(self)@, d.methods@),
    {
        let methods = self.lower_fn_defs(&d.methods);
        HirImplDef {
            capability: d.capability.clone(),
            target_type: d.target_type.clone(),
            methods,
        }
    }

    /// Lowers a cost term.
    fn lower_cost_expr(&self, ce: &AstCostExpr) -> (h: HirExpr)
        ensures
            cost_ok(self@.names, *ce, h),
    {
        match ce {
            AstCostExpr::Literal(n) => HirExpr::IntLit(*n as i64),
            AstCostExpr::Var(name) => HirExpr::Var(name.clone(), self.resolve_name(name.as_str())),
            AstCostExpr::Linear(name) => HirExpr::Var(
                name.clone(),
                self.resolve_name(name.as_str()),
            ),
        }
    }
}

} // verus!
