//! The parsed form of Spore source read by the analyses: expressions,
//! statements, written types, function definitions and modules.
//!
//! Each node holds what the analysis reads: names, literal values, operator
//! kinds and sub-expressions. A float literal is held by its IEEE-754 bits.

use vstd::prelude::*;
use std::rc::Rc;

verus! {

/// A byte range of source text.
#[derive(Debug, Clone, Copy, PartialEq, Eq)]
pub struct Span {
    pub start: usize,
    pub end: usize,
}

#[derive(Debug, Clone, Copy, PartialEq, Eq, Structural)]
pub enum BinOp {
    Add,
    Sub,
    Mul,
    Div,
    Mod,
    Eq,
    Ne,
    Lt,
    Gt,
    Le,
    Ge,
    And,
    Or,
    BitAnd,
    BitOr,
    BitXor,
    Shl,
    Shr,
}

#[derive(Debug, Clone, Copy, PartialEq, Eq, Structural)]
pub enum UnaryOp {
    Neg,
    Not,
    BitNot,
}

/// One piece of an f-string or t-string.
#[derive(Debug, PartialEq, Eq)]
pub enum StrPart {
    Literal(String),
    Expr(Expr),
}

/// A pattern of a `match` arm.
#[derive(Debug, PartialEq, Eq)]
pub enum Pattern {
    Wildcard,
    Var(String),
    IntLit(i64),
    StrLit(String),
    BoolLit(bool),
    Constructor(String, Vec<Pattern>),
    Struct(String, Vec<(String, Pattern)>),
    Or(Vec<Pattern>),
    /// Element patterns and the name bound to the rest, if any.
    List(Vec<Pattern>, Option<String>),
}

/// A `match` arm: pattern, optional guard and body.
#[derive(Debug, PartialEq, Eq)]
pub struct MatchArm {
    pub pattern: Pattern,
    pub guard: Option<Expr>,
    pub body: Expr,
}

/// An arm of `select { ... }`.
#[derive(Debug, PartialEq, Eq)]
pub enum SelectArm {
    Recv { binding: String, source: Expr, body: Expr },
    Timeout { duration: Expr, body: Expr },
}

/// A binding inside `handle { ... }`: a handler installed with a payload of
/// named values, or an inline `on` arm with its body.
#[derive(Debug, PartialEq, Eq)]
pub enum HandleBinding {
    Use(Vec<(String, Expr)>),
    On(Expr),
}

#[derive(Debug, PartialEq, Eq)]
pub enum Expr {
    IntLit(i64),
    /// A float literal, by its IEEE-754 bits.
    FloatLit(u64),
    StrLit(String),
    BoolLit(bool),
    CharLit(char),
    Var(String),
    BinOp(Box<Expr>, BinOp, Box<Expr>),
    UnaryOp(UnaryOp, Box<Expr>),
    Call(Box<Expr>, Vec<Expr>),
    If(Box<Expr>, Box<Expr>, Option<Box<Expr>>),
    Match(Box<Expr>, Vec<MatchArm>),
    Block(Vec<Stmt>, Option<Box<Expr>>),
    StructLit(String, Vec<(String, Expr)>),
    List(Vec<Expr>),
    /// Parameters and body.
    Lambda(Vec<Param>, Box<Expr>),
    Spawn(Box<Expr>),
    Await(Box<Expr>),
    Try(Box<Expr>),
    Throw(Box<Expr>),
    ChannelNew { elem_type: TypeExpr, buffer: Box<Expr> },
    Return(Option<Box<Expr>>),
    Pipe(Box<Expr>, Box<Expr>),
    FieldAccess(Box<Expr>, String),
    FString(Vec<StrPart>),
    TString(Vec<StrPart>),
    ParallelScope { lanes: Option<Box<Expr>>, body: Box<Expr> },
    Select(Vec<SelectArm>),
    /// A hole `?name` (unnamed holes carry no name) with its written type,
    /// if any.
    Hole(Option<String>, Option<TypeExpr>),
    /// The `_` placeholder, which parsing turns into a lambda.
    Placeholder,
    Perform { effect: String, operation: String, args: Vec<Expr> },
    Handle { body: Box<Expr>, handlers: Vec<HandleBinding> },
}

/// A statement: `let name [: type] = init` or an expression.
#[derive(Debug, PartialEq, Eq)]
pub enum Stmt {
    /// Bound name, the written type annotation if any, initializer.
    Let(String, Option<TypeExpr>, Expr),
    Expr(Expr),
}

/// A cost literal, variable or linear term from a `cost [...]` clause.
#[derive(Debug, PartialEq, Eq)]
pub enum AstCostExpr {
    Literal(u64),
    Var(String),
    Linear(String),
}

/// `cost [compute, alloc, io, parallel]`.
#[derive(Debug, PartialEq, Eq)]
pub struct CostClause {
    pub compute: AstCostExpr,
    pub alloc: AstCostExpr,
    pub io: AstCostExpr,
    pub parallel: AstCostExpr,
}

/// A written type.
#[derive(Debug, PartialEq, Eq)]
pub enum TypeExpr {
    Named(String),
    /// A type hole `?name` (unnamed ones carry no name).
    Hole(Option<String>),
    Generic(String, Vec<TypeExpr>),
    /// Parameter types, result type and declared error types.
    Function(Vec<TypeExpr>, Box<TypeExpr>, Vec<TypeExpr>),
    Tuple(Vec<TypeExpr>),
    /// Base type, bound variable and predicate.
    Refinement(Box<TypeExpr>, String, Rc<Expr>),
    Record(Vec<(String, TypeExpr)>),
}

/// A parameter: its name and written type.
#[derive(Debug, PartialEq, Eq)]
pub struct Param {
    pub name: String,
    pub ty: TypeExpr,
}

/// One `field: limit` entry of a `budget { ... }` block.
#[derive(Debug, PartialEq, Eq)]
pub struct BudgetItem {
    pub field: String,
    pub limit: u64,
    pub span: Option<Span>,
}

/// A `budget { ... }` block.
#[derive(Debug, PartialEq, Eq)]
pub struct BudgetClause {
    pub items: Vec<BudgetItem>,
}

/// Declared visibility of an item.
#[derive(Debug, Clone, Copy, PartialEq, Eq, Structural)]
pub enum Visibility {
    Private,
    PubPkg,
    Pub,
}

/// A `where` constraint: a type variable and the trait it must implement.
#[derive(Debug, PartialEq, Eq)]
pub struct TypeConstraint {
    pub type_var: String,
    pub bound: String,
}

/// A function definition.
#[derive(Debug, PartialEq, Eq)]
pub struct FnDef {
    pub name: String,
    pub visibility: Visibility,
    pub type_params: Vec<String>,
    pub params: Vec<Param>,
    pub return_type: Option<TypeExpr>,
    /// Declared error types (`! E1 | E2`).
    pub errors: Vec<TypeExpr>,
    /// The resources of the `uses` clause, if written.
    pub uses_clause: Option<Vec<String>>,
    pub where_clause: Vec<TypeConstraint>,
    /// `None` for a hole body.
    pub body: Option<Expr>,
    pub cost_clause: Option<CostClause>,
    /// Marked `@unbounded`.
    pub is_unbounded: bool,
    /// The realization-shape budget, if declared.
    pub budget_clause: Option<BudgetClause>,
}

/// A named, typed field of a struct.
#[derive(Debug, PartialEq, Eq)]
pub struct FieldDef {
    pub name: String,
    pub ty: TypeExpr,
}

#[derive(Debug, PartialEq, Eq)]
pub struct StructDef {
    pub name: String,
    pub visibility: Visibility,
    pub type_params: Vec<String>,
    pub fields: Vec<FieldDef>,
}

/// A variant of a sum type with its field types.
#[derive(Debug, PartialEq, Eq)]
pub struct VariantDef {
    pub name: String,
    pub fields: Vec<TypeExpr>,
}

#[derive(Debug, PartialEq, Eq)]
pub struct TypeDef {
    pub name: String,
    pub visibility: Visibility,
    pub type_params: Vec<String>,
    pub variants: Vec<VariantDef>,
}

/// A capability (or trait) with its method signatures.
#[derive(Debug, PartialEq, Eq)]
pub struct CapabilityDef {
    pub name: String,
    pub visibility: Visibility,
    pub type_params: Vec<String>,
    pub methods: Vec<FnDef>,
}

/// An implementation of a capability for a type.
#[derive(Debug, PartialEq, Eq)]
pub struct ImplDef {
    pub capability: String,
    pub target_type: String,
    pub methods: Vec<FnDef>,
}

/// An effect protocol: its name, visibility, type parameters and the
/// signatures of its operations.
#[derive(Debug, PartialEq, Eq)]
pub struct EffectDef {
    pub name: String,
    pub visibility: Visibility,
    pub type_params: Vec<String>,
    pub operations: Vec<FnDef>,
}

/// A module item. Constants are held by name; imports, aliases and
/// handlers as `Other`.
#[derive(Debug, PartialEq, Eq)]
pub enum Item {
    Function(FnDef),
    StructDef(StructDef),
    TypeDef(TypeDef),
    CapabilityDef(CapabilityDef),
    TraitDef(CapabilityDef),
    EffectDef(EffectDef),
    Const(String),
    ImplDef(ImplDef),
    Other,
}

#[derive(Debug, PartialEq, Eq)]
pub struct Module {
    /// The dot-separated module name; empty for an unnamed module.
    pub name: String,
    pub items: Vec<Item>,
}

/// A second handle to a refinement predicate, through `Rc::clone`: the
/// same expression, shared.
#[verifier::external_body]
pub fn share_predicate(p: &Rc<Expr>) -> (r: Rc<Expr>)
    ensures
        r == *p,
{
    Rc::clone(p)
}

/// The expression and all its sub-expressions are free of the `_`
/// placeholder (parsing removes every one).
pub open spec fn placeholder_free(e: Expr) -> bool
    decreases e,
{
    match e {
        Expr::Placeholder => false,
        Expr::BinOp(a, _, b) => placeholder_free(*a) && placeholder_free(*b),
        Expr::Pipe(a, b) => placeholder_free(*a) && placeholder_free(*b),
        Expr::UnaryOp(_, a) => placeholder_free(*a),
        Expr::Spawn(a) => placeholder_free(*a),
        Expr::Await(a) => placeholder_free(*a),
        Expr::Try(a) => placeholder_free(*a),
        Expr::Throw(a) => placeholder_free(*a),
        Expr::FieldAccess(a, _) => placeholder_free(*a),
        Expr::ChannelNew { buffer, .. } => placeholder_free(*buffer),
        Expr::Lambda(_, b) => placeholder_free(*b),
        Expr::Call(f, args) => placeholder_free(*f) && forall|i: int|
            0 <= i < args@.len() ==> placeholder_free(#[trigger] args@[i]),
        Expr::List(es) => forall|i: int| 0 <= i < es@.len() ==> placeholder_free(#[trigger] es@[i]),
        Expr::If(c, t, e) => placeholder_free(*c) && placeholder_free(*t) && match e {
            Some(x) => placeholder_free(*x),
            None => true,
        },
        Expr::Match(s, arms) => placeholder_free(*s) && forall|i: int|
            0 <= i < arms@.len() ==> placeholder_free((#[trigger] arms@[i]).body) && match arms@[i].guard {
                Some(g) => placeholder_free(g),
                None => true,
            },
        Expr::Block(stmts, tail) => (forall|i: int|
            0 <= i < stmts@.len() ==> match #[trigger] stmts@[i] {
                Stmt::Let(_, _, x) => placeholder_free(x),
                Stmt::Expr(x) => placeholder_free(x),
            }) && match tail {
            Some(x) => placeholder_free(*x),
            None => true,
        },
        Expr::StructLit(_, fields) => forall|i: int|
            0 <= i < fields@.len() ==> placeholder_free((#[trigger] fields@[i]).1),
        Expr::Return(x) => match x {
            Some(y) => placeholder_free(*y),
            None => true,
        },
        Expr::FString(parts) => forall|i: int|
            0 <= i < parts@.len() ==> match #[trigger] parts@[i] {
                StrPart::Expr(x) => placeholder_free(x),
                StrPart::Literal(_) => true,
            },
        Expr::TString(parts) => forall|i: int|
            0 <= i < parts@.len() ==> match #[trigger] parts@[i] {
                StrPart::Expr(x) => placeholder_free(x),
                StrPart::Literal(_) => true,
            },
        Expr::ParallelScope { lanes, body } => placeholder_free(*body) && match lanes {
            Some(x) => placeholder_free(*x),
            None => true,
        },
        Expr::Select(arms) => forall|i: int|
            0 <= i < arms@.len() ==> match #[trigger] arms@[i] {
                SelectArm::Recv { binding: _, source, body } => placeholder_free(source)
                    && placeholder_free(body),
                SelectArm::Timeout { duration, body } => placeholder_free(duration)
                    && placeholder_free(body),
            },
        Expr::Perform { effect: _, operation: _, args } => forall|i: int|
            0 <= i < args@.len() ==> placeholder_free(#[trigger] args@[i]),
        Expr::Handle { body, handlers } => placeholder_free(*body) && forall|i: int|
            0 <= i < handlers@.len() ==> match #[trigger] handlers@[i] {
                HandleBinding::Use(payload) => forall|j: int|
                    0 <= j < payload@.len() ==> placeholder_free((#[trigger] payload@[j]).1),
                HandleBinding::On(x) => placeholder_free(x),
            },
        _ => true,
    }
}

} // verus!
