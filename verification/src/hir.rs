//! High-level intermediate representation: a resolved, desugared form of the
//! parsed module. Names carry definition ids, pipes become calls and string
//! interpolation becomes concatenation.

use vstd::prelude::*;

verus! {

/// A unique identifier for resolved names.
pub type DefId = u32;

/// The id given to a name that resolves to no definition.
pub const UNRESOLVED: DefId = 0xffff_ffff;

/// A resolved module.
#[derive(Debug)]
pub struct HirModule {
    pub items: Vec<HirItem>,
}

#[derive(Debug)]
pub enum HirItem {
    Function(HirFnDef),
    StructDef(HirStructDef),
    TypeDef(HirTypeDef),
    CapabilityDef(HirCapabilityDef),
    ImplDef(HirImplDef),
}

#[derive(Debug)]
pub struct HirFnDef {
    pub name: String,
    pub def_id: DefId,
    pub params: Vec<HirParam>,
    pub return_type: Option<HirTypeRef>,
    pub body: Option<HirExpr>,
    /// The resources named by the `uses` clause, in increasing order.
    pub uses_clause: Vec<String>,
    pub throws: Vec<HirTypeRef>,
    pub where_clause: Vec<HirTypeConstraint>,
    /// Compute-dimension upper bound from `cost [compute, alloc, io, parallel]`.
    pub cost_bound: Option<Box<HirExpr>>,
}

#[derive(Debug)]
pub struct HirTypeConstraint {
    pub type_var: String,
    pub bound: String,
}

#[derive(Debug)]
pub struct HirParam {
    pub name: String,
    pub ty: HirTypeRef,
}

/// Type reference in HIR — resolved but not yet fully typed.
#[derive(Debug)]
pub enum HirTypeRef {
    Primitive(PrimitiveTy),
    Named(String, DefId),
    Generic(String, Vec<HirTypeRef>),
    Function(Vec<HirTypeRef>, Box<HirTypeRef>),
    /// Anonymous record type: `{ x: Int, y: Int }`
    Record(Vec<(String, Box<HirTypeRef>)>),
}

#[derive(Debug, Clone, Copy, PartialEq, Eq)]
pub enum PrimitiveTy {
    Int,
    Float,
    Bool,
    Str,
    Char,
    Unit,
    Never,
}

#[derive(Debug)]
pub struct HirStructDef {
    pub name: String,
    pub def_id: DefId,
    pub type_params: Vec<String>,
    pub fields: Vec<(String, HirTypeRef)>,
}

#[derive(Debug)]
pub struct HirTypeDef {
    pub name: String,
    pub def_id: DefId,
    pub type_params: Vec<String>,
    pub variants: Vec<HirVariant>,
}

#[derive(Debug)]
pub struct HirVariant {
    pub name: String,
    pub fields: Vec<HirTypeRef>,
}

#[derive(Debug)]
pub struct HirCapabilityDef {
    pub name: String,
    pub def_id: DefId,
    pub type_params: Vec<String>,
    pub methods: Vec<HirFnDef>,
}

#[derive(Debug)]
pub struct HirImplDef {
    pub capability: String,
    pub target_type: String,
    pub methods: Vec<HirFnDef>,
}

/// HIR expressions — desugared and simplified.
#[derive(Debug)]
pub enum HirExpr {
    IntLit(i64),
    /// A float literal, by its IEEE-754 bits.
    FloatLit(u64),
    StrLit(String),
    BoolLit(bool),
    /// A variable with the definition it resolves to.
    Var(String, DefId),
    BinOp(Box<HirExpr>, HirBinOp, Box<HirExpr>),
    UnaryOp(HirUnaryOp, Box<HirExpr>),
    /// Function call (pipes are desugared into this).
    Call(Box<HirExpr>, Vec<HirExpr>),
    If(Box<HirExpr>, Box<HirExpr>, Option<Box<HirExpr>>),
    Match(Box<HirExpr>, Vec<HirMatchArm>),
    Block(Vec<HirStmt>, Option<Box<HirExpr>>),
    StructLit(String, Vec<(String, HirExpr)>),
    FieldAccess(Box<HirExpr>, String),
    Lambda(Vec<HirParam>, Box<HirExpr>),
    Try(Box<HirExpr>),
    Spawn(Box<HirExpr>),
    Await(Box<HirExpr>),
    Return(Option<Box<HirExpr>>),
    Throw(Box<HirExpr>),
    List(Vec<HirExpr>),
    CharLit(char),
    /// Holes are preserved for IDE support.
    Hole(String),
}

#[derive(Debug, Clone, Copy, PartialEq, Eq)]
pub enum HirBinOp {
    Add,
    Sub,
    Mul,
    Div,
    Mod,
    Eq,
    Ne,
    Lt,
    Gt,
    Le,
    Ge,
    And,
    Or,
    BitAnd,
    BitOr,
    BitXor,
    Shl,
    Shr,
}

#[derive(Debug, Clone, Copy, PartialEq, Eq)]
pub enum HirUnaryOp {
    Neg,
    Not,
    BitNot,
}

#[derive(Debug)]
pub struct HirMatchArm {
    pub pattern: HirPattern,
    pub guard: Option<HirExpr>,
    pub body: HirExpr,
}

#[derive(Debug)]
pub enum HirPattern {
    Wildcard,
    Var(String),
    IntLit(i64),
    StrLit(String),
    BoolLit(bool),
    Constructor(String, Vec<HirPattern>),
    Struct(String, Vec<(String, HirPattern)>),
    Or(Vec<HirPattern>),
}

#[derive(Debug)]
pub enum HirStmt {
    Let(String, Option<HirTypeRef>, HirExpr),
    Expr(HirExpr),
}

} // verus!
