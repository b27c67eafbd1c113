//! Cost analysis engine — three-tier cost analysis for Spore functions.
//!
//! 1. **Automatic**: Detect structural recursion (one arg decreases by constant
//!    per recursive call) → cost is O(n).
//! 2. **Semi-auto**: Read `cost [compute, alloc, io, parallel]` clauses.
//! 3. **Escape**: `@unbounded` annotation skips cost checking.

use vstd::prelude::*;
use crate::text::{decimal, push_decimal, str_eq, string_of};
use crate::name_map::NameMap;
use crate::names::views;
use crate::ast::{
    AstCostExpr, CostClause, FnDef, Item, Module,
    BinOp, Expr, Stmt, MatchArm, StrPart, SelectArm, HandleBinding, placeholder_free,
};

verus! {

/// Cost expression — a symbolic representation of computational cost.
///
/// Grammar: `+, *, ^const, log, max, min` — no division or conditionals.
#[derive(Debug, PartialEq, Eq)]
pub enum CostExpr {
    Const(u64),
    Var(String),
    Add(Box<CostExpr>, Box<CostExpr>),
    Mul(Box<CostExpr>, Box<CostExpr>),
    Pow(Box<CostExpr>, u32),
    Log(Box<CostExpr>),
    Max(Box<CostExpr>, Box<CostExpr>),
    Min(Box<CostExpr>, Box<CostExpr>),
    /// Linear in a named variable — represents O(n) cost.
    Linear(String),
    /// Unbounded / unknown cost — analysis could not determine a bound.
    Unbounded,
}

/// Structural equality of cost expressions, comparing names by their text.
pub open spec fn same_cost(a: CostExpr, b: CostExpr) -> bool
    decreases a,
{
    match (a, b) {
        (CostExpr::Const(x), CostExpr::Const(y)) => x == y,
        (CostExpr::Var(x), CostExpr::Var(y)) => x@ == y@,
        (CostExpr::Add(a1, a2), CostExpr::Add(b1, b2)) => same_cost(*a1, *b1) && same_cost(*a2, *b2),
        (CostExpr::Mul(a1, a2), CostExpr::Mul(b1, b2)) => same_cost(*a1, *b1) && same_cost(*a2, *b2),
        (CostExpr::Pow(a1, x), CostExpr::Pow(b1, y)) => same_cost(*a1, *b1) && x == y,
        (CostExpr::Log(a1), CostExpr::Log(b1)) => same_cost(*a1, *b1),
        (CostExpr::Max(a1, a2), CostExpr::Max(b1, b2)) => same_cost(*a1, *b1) && same_cost(*a2, *b2),
        (CostExpr::Min(a1, a2), CostExpr::Min(b1, b2)) => same_cost(*a1, *b1) && same_cost(*a2, *b2),
        (CostExpr::Linear(x), CostExpr::Linear(y)) => x@ == y@,
        (CostExpr::Unbounded, CostExpr::Unbounded) => true,
        _ => false,
    }
}

/// Rendering of a cost expression.
pub open spec fn render_cost(e: CostExpr) -> Seq<char>
    decreases e,
{
    match e {
        CostExpr::Const(n) => decimal(n as nat),
        CostExpr::Var(v) => v@,
        CostExpr::Add(a, b) => "("@ + render_cost(*a) + " + "@ + render_cost(*b) + ")"@,
        CostExpr::Mul(a, b) => "("@ + render_cost(*a) + " * "@ + render_cost(*b) + ")"@,
        CostExpr::Pow(base, exp) => render_cost(*base) + "^"@ + decimal(exp as nat),
        CostExpr::Log(a) => "log("@ + render_cost(*a) + ")"@,
        CostExpr::Max(a, b) => "max("@ + render_cost(*a) + ", "@ + render_cost(*b) + ")"@,
        CostExpr::Min(a, b) => "min("@ + render_cost(*a) + ", "@ + render_cost(*b) + ")"@,
        CostExpr::Linear(v) => "O("@ + v@ + ")"@,
        CostExpr::Unbounded => "\u{221e}"@,
    }
}

impl Clone for CostExpr {
    fn clone(&self) -> (r: Self)
        ensures
            r == *self,
        decreases self,
    {
        match self {
            CostExpr::Const(n) => CostExpr::Const(*n),
            CostExpr::Var(v) => CostExpr::Var(v.clone()),
            CostExpr::Add(a, b) => CostExpr::Add(Box::new((**a).clone()), Box::new((**b).clone())),
            CostExpr::Mul(a, b) => CostExpr::Mul(Box::new((**a).clone()), Box::new((**b).clone())),
            CostExpr::Pow(a, e) => CostExpr::Pow(Box::new((**a).clone()), *e),
            CostExpr::Log(a) => CostExpr::Log(Box::new((**a).clone())),
            CostExpr::Max(a, b) => CostExpr::Max(Box::new((**a).clone()), Box::new((**b).clone())),
            CostExpr::Min(a, b) => CostExpr::Min(Box::new((**a).clone()), Box::new((**b).clone())),
            CostExpr::Linear(v) => CostExpr::Linear(v.clone()),
            CostExpr::Unbounded => CostExpr::Unbounded,
        }
    }
}

impl CostExpr {
    /// Structural equality, names compared by text.
    pub fn same_as(&self, other: &CostExpr) -> (b: bool)
        ensures
            b == same_cost(*self, *other),
        decreases self,
    {
        match (self, other) {
            (CostExpr::Const(x), CostExpr::Const(y)) => *x == *y,
            (CostExpr::Var(x), CostExpr::Var(y)) => str_eq(x.as_str(), y.as_str()),
            (CostExpr::Add(a1, a2), CostExpr::Add(b1, b2)) => a1.same_as(b1) && a2.same_as(b2),
            (CostExpr::Mul(a1, a2), CostExpr::Mul(b1, b2)) => a1.same_as(b1) && a2.same_as(b2),
            (CostExpr::Pow(a1, x), CostExpr::Pow(b1, y)) => a1.same_as(b1) && *x == *y,
            (CostExpr::Log(a1), CostExpr::Log(b1)) => a1.same_as(b1),
            (CostExpr::Max(a1, a2), CostExpr::Max(b1, b2)) => a1.same_as(b1) && a2.same_as(b2),
            (CostExpr::Min(a1, a2), CostExpr::Min(b1, b2)) => a1.same_as(b1) && a2.same_as(b2),
            (CostExpr::Linear(x), CostExpr::Linear(y)) => str_eq(x.as_str(), y.as_str()),
            (CostExpr::Unbounded, CostExpr::Unbounded) => true,
            _ => false,
        }
    }

    fn render_into(&self, s: &mut String)
        ensures
            final(s)@ == old(s)@ + render_cost(*self),
        decreases self,
    {
        let ghost s0 = s@;
        match self {
            CostExpr::Const(n) => push_decimal(s, *n),
            CostExpr::Var(v) => s.append(v.as_str()),
            CostExpr::Add(a, b) => {
                s.append("(");
                a.render_into(s);
                s.append(" + ");
                b.render_into(s);
                s.append(")");
            },
            CostExpr::Mul(a, b) => {
                s.append("(");
                a.render_into(s);
                s.append(" * ");
                b.render_into(s);
                s.append(")");
            },
            CostExpr::Pow(base, exp) => {
                base.render_into(s);
                s.append("^");
                push_decimal(s, *exp as u64);
            },
            CostExpr::Log(a) => {
                s.append("log(");
                a.render_into(s);
                s.append(")");
            },
            CostExpr::Max(a, b) => {
                s.append("max(");
                a.render_into(s);
                s.append(", ");
                b.render_into(s);
                s.append(")");
            },
            CostExpr::Min(a, b) => {
                s.append("min(");
                a.render_into(s);
                s.append(", ");
                b.render_into(s);
                s.append(")");
            },
            CostExpr::Linear(v) => {
                s.append("O(");
                s.append(v.as_str());
                s.append(")");
            },
            CostExpr::Unbounded => s.append("\u{221e}"),
        }
        assert(s@ =~= s0 + render_cost(*self));
    }

    /// The written form, e.g. `(n + 1)`, `n^2`, `log(n)`, `O(n)`.
    pub fn to_string(&self) -> (s: String)
        ensures
            s@ == render_cost(*self),
    {
        let mut s = String::new();
        self.render_into(&mut s);
        assert(s@ =~= render_cost(*self));
        s
    }
}

/// Result of cost analysis for a single function.
#[derive(Debug)]
pub enum CostResult {
    /// Non-recursive, bounded constant cost.
    Constant(u64),
    /// Structural recursion on parameter `name` — cost is O(n).
    StructuralRecursion(String),
    /// User declared via `cost [compute, alloc, io, parallel]`; stores compute part.
    Declared(CostExpr),
    /// `@unbounded` annotation — cost checking skipped.
    Unbounded,
    /// Could not determine — warning message attached.
    Unknown(String),
}

impl Clone for CostResult {
    fn clone(&self) -> (r: Self)
        ensures
            r == *self,
    {
        match self {
            CostResult::Constant(n) => CostResult::Constant(*n),
            CostResult::StructuralRecursion(p) => CostResult::StructuralRecursion(p.clone()),
            CostResult::Declared(e) => CostResult::Declared(e.clone()),
            CostResult::Unbounded => CostResult::Unbounded,
            CostResult::Unknown(m) => CostResult::Unknown(m.clone()),
        }
    }
}

/// Saturating sum of two counts.
pub open spec fn sat_add(x: u64, y: u64) -> u64 {
    if x + y > u64::MAX { u64::MAX } else { (x + y) as u64 }
}

/// Saturating product of two counts.
pub open spec fn sat_mul(x: u64, y: u64) -> u64 {
    if x * y > u64::MAX { u64::MAX } else { (x * y) as u64 }
}

/// The sum of two costs: `0` is neutral, constants fold (saturating),
/// `Unbounded` absorbs, `O(n) + O(n)` is `2 * O(n)`, otherwise the sum is kept
/// symbolic.
pub open spec fn spec_add_cost(a: CostExpr, b: CostExpr) -> CostExpr {
    if b == CostExpr::Const(0) {
        a
    } else if a == CostExpr::Const(0) {
        b
    } else if a is Const && b is Const {
        CostExpr::Const(sat_add(a->Const_0, b->Const_0))
    } else if a is Unbounded || b is Unbounded {
        CostExpr::Unbounded
    } else if a is Linear && b is Linear && a->Linear_0@ == b->Linear_0@ {
        CostExpr::Mul(Box::new(CostExpr::Const(2)), Box::new(a))
    } else {
        CostExpr::Add(Box::new(a), Box::new(b))
    }
}

/// The maximum of two costs: constants compare, `Unbounded` absorbs, `0` is
/// neutral, otherwise kept symbolic.
pub open spec fn spec_max_cost(a: CostExpr, b: CostExpr) -> CostExpr {
    if a is Const && b is Const {
        CostExpr::Const(if a->Const_0 >= b->Const_0 { a->Const_0 } else { b->Const_0 })
    } else if a is Unbounded || b is Unbounded {
        CostExpr::Unbounded
    } else if a == CostExpr::Const(0) {
        b
    } else if b == CostExpr::Const(0) {
        a
    } else {
        CostExpr::Max(Box::new(a), Box::new(b))
    }
}

/// The product of two costs: `0` annihilates, `1` is neutral, constants fold
/// (saturating), `Unbounded` absorbs, otherwise kept symbolic.
pub open spec fn spec_mul_cost(a: CostExpr, b: CostExpr) -> CostExpr {
    if b == CostExpr::Const(0) || a == CostExpr::Const(0) {
        CostExpr::Const(0)
    } else if b == CostExpr::Const(1) {
        a
    } else if a == CostExpr::Const(1) {
        b
    } else if a is Const && b is Const {
        CostExpr::Const(sat_mul(a->Const_0, b->Const_0))
    } else if a is Unbounded || b is Unbounded {
        CostExpr::Unbounded
    } else {
        CostExpr::Mul(Box::new(a), Box::new(b))
    }
}

/// Helper: add two cost expressions.
pub fn add_cost(a: &CostExpr, b: &CostExpr) -> (r: CostExpr)
    ensures
        r == spec_add_cost(*a, *b),
{
    match (a, b) {
        (x, CostExpr::Const(0)) => x.clone(),
        (CostExpr::Const(0), x) => x.clone(),
        (CostExpr::Const(x), CostExpr::Const(y)) => CostExpr::Const(
            if *x > u64::MAX - *y { u64::MAX } else { *x + *y },
        ),
        (CostExpr::Unbounded, _) | (_, CostExpr::Unbounded) => CostExpr::Unbounded,
        (CostExpr::Linear(a_var), CostExpr::Linear(b_var)) if str_eq(a_var.as_str(), b_var.as_str()) => {
            CostExpr::Mul(
                Box::new(CostExpr::Const(2)),
                Box::new(CostExpr::Linear(a_var.clone())),
            )
        },
        _ => CostExpr::Add(Box::new(a.clone()), Box::new(b.clone())),
    }
}

/// Helper: max of two cost expressions.
pub fn max_cost(a: &CostExpr, b: &CostExpr) -> (r: CostExpr)
    ensures
        r == spec_max_cost(*a, *b),
{
    match (a, b) {
        (CostExpr::Const(x), CostExpr::Const(y)) => CostExpr::Const(if *x >= *y { *x } else { *y }),
        (CostExpr::Unbounded, _) | (_, CostExpr::Unbounded) => CostExpr::Unbounded,
        (CostExpr::Const(0), other) => other.clone(),
        (other, CostExpr::Const(0)) => other.clone(),
        _ => CostExpr::Max(Box::new(a.clone()), Box::new(b.clone())),
    }
}

/// Helper: multiply two cost expressions.
pub fn mul_cost(a: &CostExpr, b: &CostExpr) -> (r: CostExpr)
    ensures
        r == spec_mul_cost(*a, *b),
{
    match (a, b) {
        (_, CostExpr::Const(0)) | (CostExpr::Const(0), _) => CostExpr::Const(0),
        (x, CostExpr::Const(1)) => x.clone(),
        (CostExpr::Const(1), x) => x.clone(),
        (CostExpr::Const(x), CostExpr::Const(y)) => CostExpr::Const(
            match x.checked_mul(*y) {
                Some(p) => p,
                None => u64::MAX,
            },
        ),
        (CostExpr::Unbounded, _) | (_, CostExpr::Unbounded) => CostExpr::Unbounded,
        _ => CostExpr::Mul(Box::new(a.clone()), Box::new(b.clone())),
    }
}

/// Whether an actual cost exceeds a declared budget: constants compare,
/// `Unbounded` exceeds any constant budget, structurally equal costs never
/// exceed each other, any other cost exceeds a constant budget (it cannot be
/// shown to fit), and against a symbolic budget nothing is flagged.
pub open spec fn spec_exceeds_budget(actual: CostExpr, budget: CostExpr) -> bool {
    if actual is Const && budget is Const {
        actual->Const_0 > budget->Const_0
    } else if actual is Unbounded && budget is Const {
        true
    } else if same_cost(actual, budget) {
        false
    } else {
        budget is Const
    }
}

/// Check if an actual cost exceeds a declared budget.
pub fn exceeds_budget(actual: &CostExpr, budget: &CostExpr) -> (b: bool)
    ensures
        b == spec_exceeds_budget(*actual, *budget),
{
    match (actual, budget) {
        (CostExpr::Const(actual_n), CostExpr::Const(budget_n)) => *actual_n > *budget_n,
        (CostExpr::Unbounded, CostExpr::Const(_)) => true,
        (a, b) if a.same_as(b) => false,
        (_, CostExpr::Const(_)) => true,
        _ => false,
    }
}

/// The compute-dimension cost a [`CostResult`] stands for.
pub open spec fn spec_cost_result_to_expr(result: CostResult) -> CostExpr {
    match result {
        CostResult::Constant(n) => CostExpr::Const(n),
        CostResult::StructuralRecursion(param) => CostExpr::Linear(param),
        CostResult::Declared(expr) => expr,
        CostResult::Unbounded => CostExpr::Unbounded,
        CostResult::Unknown(_) => CostExpr::Unbounded,
    }
}

/// Convert a [`CostResult`] into its time-dimension [`CostExpr`].
pub fn cost_result_to_expr(result: &CostResult) -> (r: CostExpr)
    ensures
        r == spec_cost_result_to_expr(*result),
{
    match result {
        CostResult::Constant(n) => CostExpr::Const(*n),
        CostResult::StructuralRecursion(param) => CostExpr::Linear(param.clone()),
        CostResult::Declared(expr) => expr.clone(),
        CostResult::Unbounded => CostExpr::Unbounded,
        CostResult::Unknown(_) => CostExpr::Unbounded,
    }
}


// ---------------------------------------------------------------------------
// Four-dimensional cost model
// ---------------------------------------------------------------------------

/// Four-dimensional cost vector.
///
/// Each function maps to one of these, describing:
/// - **compute** — operation count
/// - **alloc** — memory cell allocation
/// - **io** — I/O call count
/// - **parallel** — lane/spawn count
#[derive(Debug, PartialEq, Eq)]
pub struct CostVector {
    pub compute: CostExpr,
    pub alloc: CostExpr,
    pub io: CostExpr,
    pub parallel: CostExpr,
}

impl Clone for CostVector {
    fn clone(&self) -> (r: Self)
        ensures
            r == *self,
    {
        CostVector {
            compute: self.compute.clone(),
            alloc: self.alloc.clone(),
            io: self.io.clone(),
            parallel: self.parallel.clone(),
        }
    }
}

/// The all-constant vector.
pub open spec fn spec_constant(compute: u64, alloc: u64, io: u64, parallel: u64) -> CostVector {
    CostVector {
        compute: CostExpr::Const(compute),
        alloc: CostExpr::Const(alloc),
        io: CostExpr::Const(io),
        parallel: CostExpr::Const(parallel),
    }
}

/// Sequential composition: compute adds up, the other dimensions take the
/// maximum.
pub open spec fn spec_seq(a: CostVector, b: CostVector) -> CostVector {
    CostVector {
        compute: spec_add_cost(a.compute, b.compute),
        alloc: spec_max_cost(a.alloc, b.alloc),
        io: spec_max_cost(a.io, b.io),
        parallel: spec_max_cost(a.parallel, b.parallel),
    }
}

/// Component-wise maximum.
pub open spec fn spec_vmax(a: CostVector, b: CostVector) -> CostVector {
    CostVector {
        compute: spec_max_cost(a.compute, b.compute),
        alloc: spec_max_cost(a.alloc, b.alloc),
        io: spec_max_cost(a.io, b.io),
        parallel: spec_max_cost(a.parallel, b.parallel),
    }
}

/// All four dimensions are bounded.
pub open spec fn spec_is_bounded(v: CostVector) -> bool {
    !(v.compute is Unbounded) && !(v.alloc is Unbounded) && !(v.io is Unbounded)
        && !(v.parallel is Unbounded)
}

impl CostVector {
    pub fn constant(compute: u64, alloc: u64, io: u64, parallel: u64) -> (r: Self)
        ensures
            r == spec_constant(compute, alloc, io, parallel),
    {
        Self {
            compute: CostExpr::Const(compute),
            alloc: CostExpr::Const(alloc),
            io: CostExpr::Const(io),
            parallel: CostExpr::Const(parallel),
        }
    }

    pub fn zero() -> (r: Self)
        ensures
            r == spec_constant(0, 0, 0, 0),
    {
        Self::constant(0, 0, 0, 0)
    }

    /// Component-wise maximum of two cost vectors.
    pub fn max(&self, other: &CostVector) -> (r: CostVector)
        ensures
            r == spec_vmax(*self, *other),
    {
        CostVector {
            compute: max_cost(&self.compute, &other.compute),
            alloc: max_cost(&self.alloc, &other.alloc),
            io: max_cost(&self.io, &other.io),
            parallel: max_cost(&self.parallel, &other.parallel),
        }
    }

    /// Check if all dimensions are bounded (no `Unbounded`).
    pub fn is_bounded(&self) -> (b: bool)
        ensures
            b == spec_is_bounded(*self),
    {
        !matches!(self.compute, CostExpr::Unbounded)
            && !matches!(self.alloc, CostExpr::Unbounded)
            && !matches!(self.io, CostExpr::Unbounded)
            && !matches!(self.parallel, CostExpr::Unbounded)
    }

    /// Sequentially compose two cost vectors (both execute).
    ///
    /// compute = sum, alloc/io/parallel = max.
    pub fn seq(&self, other: &CostVector) -> (r: CostVector)
        ensures
            r == spec_seq(*self, *other),
    {
        CostVector {
            compute: add_cost(&self.compute, &other.compute),
            alloc: max_cost(&self.alloc, &other.alloc),
            io: max_cost(&self.io, &other.io),
            parallel: max_cost(&self.parallel, &other.parallel),
        }
    }

    /// Parallel compose (spawn): compute = max, alloc = sum, parallel += 1.
    pub fn par(&self, other: &CostVector) -> (r: CostVector)
        ensures
            r == (CostVector {
                compute: spec_max_cost(self.compute, other.compute),
                alloc: spec_add_cost(self.alloc, other.alloc),
                io: spec_max_cost(self.io, other.io),
                parallel: spec_add_cost(self.parallel, CostExpr::Const(1)),
            }),
    {
        CostVector {
            compute: max_cost(&self.compute, &other.compute),
            alloc: add_cost(&self.alloc, &other.alloc),
            io: max_cost(&self.io, &other.io),
            parallel: add_cost(&self.parallel, &CostExpr::Const(1)),
        }
    }

    /// Scale by a loop/recursion factor.
    ///
    /// compute and alloc are multiplied, io increments by 1.
    pub fn scale(&self, factor: &CostExpr) -> (r: CostVector)
        ensures
            r == (CostVector {
                compute: spec_mul_cost(self.compute, *factor),
                alloc: spec_mul_cost(self.alloc, *factor),
                io: spec_add_cost(self.io, CostExpr::Const(1)),
                parallel: self.parallel,
            }),
    {
        CostVector {
            compute: mul_cost(&self.compute, factor),
            alloc: mul_cost(&self.alloc, factor),
            io: add_cost(&self.io, &CostExpr::Const(1)),
            parallel: self.parallel.clone(),
        }
    }

    /// The written form `cost [compute, alloc, io, parallel]`.
    pub fn to_string(&self) -> (s: String)
        ensures
            s@ == "cost ["@ + render_cost(self.compute) + ", "@ + render_cost(self.alloc) + ", "@
                + render_cost(self.io) + ", "@ + render_cost(self.parallel) + "]"@,
    {
        let mut s = string_of("cost [");
        self.compute.render_into(&mut s);
        s.append(", ");
        self.alloc.render_into(&mut s);
        s.append(", ");
        self.io.render_into(&mut s);
        s.append(", ");
        self.parallel.render_into(&mut s);
        s.append("]");
        s
    }
}

/// Whether any dimension of `actual` exceeds the same dimension of `budget`.
pub open spec fn spec_exceeds_budget_vector(actual: CostVector, budget: CostVector) -> bool {
    spec_exceeds_budget(actual.compute, budget.compute)
        || spec_exceeds_budget(actual.alloc, budget.alloc)
        || spec_exceeds_budget(actual.io, budget.io)
        || spec_exceeds_budget(actual.parallel, budget.parallel)
}

pub fn exceeds_budget_vector(actual: &CostVector, budget: &CostVector) -> (b: bool)
    ensures
        b == spec_exceeds_budget_vector(*actual, *budget),
{
    exceeds_budget(&actual.compute, &budget.compute)
        || exceeds_budget(&actual.alloc, &budget.alloc)
        || exceeds_budget(&actual.io, &budget.io)
        || exceeds_budget(&actual.parallel, &budget.parallel)
}

/// The fallback vector for a result without a body walk: its compute cost,
/// and zero in the other dimensions.
pub open spec fn spec_cost_vector_from_result(result: CostResult) -> CostVector {
    CostVector {
        compute: spec_cost_result_to_expr(result),
        alloc: CostExpr::Const(0),
        io: CostExpr::Const(0),
        parallel: CostExpr::Const(0),
    }
}

/// Analyzes functions and produces four-dimensional cost vectors.
///
/// Works on top of [`CostAnalyzer`] — it reuses the existing single-dimension
/// analysis as the *time* component and derives the other three dimensions.
#[derive(Debug)]
pub struct CostChecker {
    /// Function name → cost vector.
    pub costs: NameMap<CostVector>,
}

/// What [`CostChecker::check_all`] derives from an analyzer: for every analyzed
/// function its walked vector, or the fallback built from its result.
pub open spec fn derived_vectors(
    results: Map<Seq<char>, CostResult>,
    vectors: Map<Seq<char>, CostVector>,
) -> Map<Seq<char>, CostVector> {
    Map::new(
        |k: Seq<char>| results.contains_key(k),
        |k: Seq<char>|
            if vectors.contains_key(k) {
                vectors[k]
            } else {
                spec_cost_vector_from_result(results[k])
            },
    )
}

impl CostChecker {
    pub fn new() -> (r: Self)
        ensures
            r.costs@ == Map::<Seq<char>, CostVector>::empty(),
    {
        Self { costs: NameMap::new() }
    }

    /// Derive [`CostVector`]s for every function already analyzed by `analyzer`.
    pub fn check_all(&mut self, analyzer: &CostAnalyzer)
        ensures
            final(self).costs@ == old(self).costs@.union_prefer_right(
                derived_vectors(analyzer.result_map(), analyzer.vector_map()),
            ),
    {
        let results = analyzer.results();
        let vectors = analyzer.cost_vectors();
        let ghost d = derived_vectors(analyzer.result_map(), analyzer.vector_map());
        let ghost keys = results.key_seq();
        let n = results.len();
        let mut i: usize = 0;
        while i < n
            invariant
                i <= n,
                n == keys.len(),
                keys == results.key_seq(),
                results@ == analyzer.result_map(),
                vectors@ == analyzer.vector_map(),
                d == derived_vectors(analyzer.result_map(), analyzer.vector_map()),
                self.costs@ == old(self).costs@.union_prefer_right(
                    d.restrict(keys.take(i as int).to_set()),
                ),
            decreases n - i,
        {
            let name = results.key_at(i);
            let result = results.value_at(i);
            let cv = match vectors.get(name.as_str()) {
                Some(v) => v.clone(),
                None => Self::cost_vector_from_result(result),
            };
            let ghost before = self.costs@;
            self.costs.insert(name.clone(), cv);
            proof {
                keys.take(i as int).lemma_push_to_set_commute(keys[i as int]);
                assert(keys.take(i + 1) =~= keys.take(i as int).push(keys[i as int]));
                assert(self.costs@ =~= old(self).costs@.union_prefer_right(
                    d.restrict(keys.take(i + 1).to_set()),
                ));
            }
            i = i + 1;
        }
        proof {
            results.lemma_dom();
            assert(keys.take(n as int) =~= keys);
            assert(d.restrict(keys.to_set()) =~= d);
        }
    }

    /// Fallback: build a [`CostVector`] from a [`CostResult`] when no AST-derived
    /// vector is available.
    pub fn cost_vector_from_result(result: &CostResult) -> (r: CostVector)
        ensures
            r == spec_cost_vector_from_result(*result),
    {
        let compute = cost_result_to_expr(result);

        // Without an AST walk we cannot know alloc/io/parallel, so default
        // them conservatively to zero (pure, no allocation, no parallelism).
        let alloc = CostExpr::Const(0);
        let io = CostExpr::Const(0);
        let parallel = CostExpr::Const(0);

        CostVector { compute, alloc, io, parallel }
    }
}

impl Default for CostChecker {
    fn default() -> (r: Self)
        ensures
            r.costs@ == Map::<Seq<char>, CostVector>::empty(),
    {
        Self::new()
    }
}

/// Analyze cost for functions in a module.
#[derive(Debug)]
pub struct CostAnalyzer {
    results: NameMap<CostResult>,
    /// Per-function four-dimensional cost vectors computed by AST walk.
    cost_vectors: NameMap<CostVector>,
    /// Functions whose body cost exceeds their declared budget.
    /// Each entry: (fn_name, declared_bound, actual_cost).
    violations: Vec<(String, CostVector, CostVector)>,
}

impl CostAnalyzer {
    /// Function name → one-dimensional result.
    pub closed spec fn result_map(&self) -> Map<Seq<char>, CostResult> {
        self.results@
    }

    /// Function name → walked four-dimensional vector.
    pub closed spec fn vector_map(&self) -> Map<Seq<char>, CostVector> {
        self.cost_vectors@
    }

    /// Budget violations in the order found.
    pub closed spec fn violation_seq(&self) -> Seq<(String, CostVector, CostVector)> {
        self.violations@
    }

    pub fn new() -> (r: Self)
        ensures
            r.result_map() == Map::<Seq<char>, CostResult>::empty(),
            r.vector_map() == Map::<Seq<char>, CostVector>::empty(),
            r.violation_seq() == Seq::<(String, CostVector, CostVector)>::empty(),
    {
        CostAnalyzer { results: NameMap::new(), cost_vectors: NameMap::new(), violations: Vec::new() }
    }

    pub fn results(&self) -> (r: &NameMap<CostResult>)
        ensures
            r@ == self.result_map(),
    {
        &self.results
    }

    /// Mutable access to results — useful for testing and manual insertion.
    pub fn results_mut(&mut self) -> (r: &mut NameMap<CostResult>)
        ensures
            r@ == old(self).result_map(),
            final(r)@ == final(self).result_map(),
            final(self).vector_map() == old(self).vector_map(),
            final(self).violation_seq() == old(self).violation_seq(),
    {
        &mut self.results
    }

    /// Budget violations found during analysis.
    pub fn violations(&self) -> (r: &[(String, CostVector, CostVector)])
        ensures
            r@ == self.violation_seq(),
    {
        self.violations.as_slice()
    }

    /// Four-dimensional cost vectors computed by AST walk.
    pub fn cost_vectors(&self) -> (r: &NameMap<CostVector>)
        ensures
            r@ == self.vector_map(),
    {
        &self.cost_vectors
    }
}

impl Default for CostAnalyzer {
    fn default() -> (r: Self)
        ensures
            r.result_map() == Map::<Seq<char>, CostResult>::empty(),
            r.vector_map() == Map::<Seq<char>, CostVector>::empty(),
            r.violation_seq() == Seq::<(String, CostVector, CostVector)>::empty(),
    {
        Self::new()
    }
}


// ---------------------------------------------------------------------------
// Per-expression cost
// ---------------------------------------------------------------------------

/// The I/O (capability-gated) function names.
pub open spec fn is_io_name(n: Seq<char>) -> bool {
    n == "print"@ || n == "println"@ || n == "eprintln"@ || n == "eprint"@ || n == "read_line"@
        || n == "read"@ || n == "write"@ || n == "open"@ || n == "close"@ || n == "send"@
        || n == "recv"@
}

/// Whether `name` is one of the known I/O (capability-gated) functions.
pub fn is_io_function(name: &str) -> (b: bool)
    ensures
        b == is_io_name(name@),
{
    str_eq(name, "print") || str_eq(name, "println") || str_eq(name, "eprintln")
        || str_eq(name, "eprint") || str_eq(name, "read_line") || str_eq(name, "read")
        || str_eq(name, "write") || str_eq(name, "open") || str_eq(name, "close")
        || str_eq(name, "send") || str_eq(name, "recv")
}

/// Compute cost of a binary op in the *compute* dimension: add/sub/mul cost 1
/// (2 on floats), div/mod 2 (3 on floats), everything else 1.
pub open spec fn spec_binop_compute_cost(op: BinOp, is_float: bool) -> u64 {
    match op {
        BinOp::Add | BinOp::Sub | BinOp::Mul => if is_float { 2 } else { 1 },
        BinOp::Div | BinOp::Mod => if is_float { 3 } else { 2 },
        _ => 1,
    }
}

/// Compute cost of a binary op in the *compute* dimension.
pub fn binop_compute_cost(op: &BinOp, is_float: bool) -> (c: u64)
    ensures
        c == spec_binop_compute_cost(*op, is_float),
{
    match op {
        BinOp::Add | BinOp::Sub | BinOp::Mul => {
            if is_float {
                2
            } else {
                1
            }
        },
        BinOp::Div | BinOp::Mod => {
            if is_float {
                3
            } else {
                2
            }
        },
        BinOp::Eq | BinOp::Ne | BinOp::Lt | BinOp::Gt | BinOp::Le | BinOp::Ge => 1,
        // Logical, bitwise, shift — 1 op each.
        BinOp::And
        | BinOp::Or
        | BinOp::BitAnd
        | BinOp::BitOr
        | BinOp::BitXor
        | BinOp::Shl
        | BinOp::Shr => 1,
    }
}

/// Best-effort check: is this expression obviously a float?
pub fn is_float_expr(expr: &Expr) -> (b: bool)
    ensures
        b == (*expr is FloatLit),
{
    matches!(expr, Expr::FloatLit(_))
}

/// Memory cells for a string of `n` bytes: ⌈n/8⌉.
pub open spec fn str_cells(n: nat) -> u64 {
    ((n + 7) / 8) as u64
}

/// The four-dimensional cost of an expression, where calls to functions named
/// in `callees` add their cost.
pub open spec fn expr_cost(callees: Map<Seq<char>, CostVector>, e: Expr) -> CostVector
    decreases e,
{
    match e {
        Expr::StrLit(s) => spec_constant(
            0,
            str_cells((vstd::utf8::encode_utf8(s@).len() as usize) as nat),
            0,
            0,
        ),
        Expr::BinOp(l, op, r) => spec_seq(
            spec_seq(expr_cost(callees, *l), expr_cost(callees, *r)),
            spec_constant(spec_binop_compute_cost(op, *l is FloatLit || *r is FloatLit), 0, 0, 0),
        ),
        Expr::UnaryOp(_, i) => spec_seq(expr_cost(callees, *i), spec_constant(1, 0, 0, 0)),
        Expr::Call(f, args) => {
            let t = spec_seq(fold_exprs(callees, args@), spec_constant(3, 0, 0, 0));
            let t2 = if *f is Var && is_io_name(f->Var_0@) {
                spec_seq(t, spec_constant(0, 0, 1, 0))
            } else {
                t
            };
            if *f is Var && callees.contains_key(f->Var_0@) {
                spec_seq(t2, callees[f->Var_0@])
            } else {
                t2
            }
        },
        Expr::If(c, t, el) => spec_seq(
            expr_cost(callees, *c),
            spec_vmax(
                expr_cost(callees, *t),
                match el {
                    Some(x) => expr_cost(callees, *x),
                    None => spec_constant(0, 0, 0, 0),
                },
            ),
        ),
        Expr::Match(s, arms) => spec_seq(
            spec_seq(expr_cost(callees, *s), fold_arms(callees, arms@)),
            spec_constant(arms@.len() as u64, 0, 0, 0),
        ),
        Expr::Block(stmts, tail) => match tail {
            Some(x) => spec_seq(fold_stmts(callees, stmts@), expr_cost(callees, *x)),
            None => fold_stmts(callees, stmts@),
        },
        Expr::StructLit(_, fields) => spec_seq(
            fold_fields(callees, fields@),
            spec_constant(0, fields@.len() as u64, 0, 0),
        ),
        Expr::List(es) => spec_seq(
            fold_exprs(callees, es@),
            spec_constant(0, sat_add(es@.len() as u64, 1), 0, 0),
        ),
        Expr::Lambda(ps, _) => spec_constant(0, ps@.len() as u64, 0, 0),
        Expr::Spawn(i) => spec_seq(expr_cost(callees, *i), spec_constant(0, 0, 0, 1)),
        Expr::Await(i) => expr_cost(callees, *i),
        Expr::Try(i) => expr_cost(callees, *i),
        Expr::Throw(i) => expr_cost(callees, *i),
        Expr::ChannelNew { buffer, .. } => expr_cost(callees, *buffer),
        Expr::Return(x) => match x {
            Some(y) => expr_cost(callees, *y),
            None => spec_constant(0, 0, 0, 0),
        },
        Expr::Pipe(l, r) => spec_seq(expr_cost(callees, *l), expr_cost(callees, *r)),
        Expr::FieldAccess(i, _) => expr_cost(callees, *i),
        Expr::FString(parts) => spec_seq(fold_parts(callees, parts@), spec_constant(0, 1, 0, 0)),
        Expr::TString(parts) => spec_seq(fold_parts(callees, parts@), spec_constant(0, 1, 0, 0)),
        Expr::ParallelScope { lanes, body } => {
            let t = match lanes {
                Some(x) => spec_seq(spec_constant(0, 0, 0, 0), expr_cost(callees, *x)),
                None => spec_constant(0, 0, 0, 0),
            };
            spec_seq(spec_seq(t, expr_cost(callees, *body)), spec_constant(0, 0, 0, 1))
        },
        Expr::Select(arms) => fold_select(callees, arms@),
        Expr::Hole(..) => spec_constant(1, 0, 0, 0),
        Expr::Perform { effect: _, operation: _, args } => spec_seq(
            fold_exprs(callees, args@),
            spec_constant(1, 0, 1, 0),
        ),
        Expr::Handle { body, handlers } => spec_seq(
            fold_handle_body(callees, expr_cost(callees, *body), handlers@),
            fold_handle_max(callees, handlers@),
        ),
        // literals and variable reads
        _ => spec_constant(0, 0, 0, 0),
    }
}

/// Sequential cost of a list of expressions.
pub open spec fn fold_exprs(callees: Map<Seq<char>, CostVector>, s: Seq<Expr>) -> CostVector
    decreases s,
{
    if s.len() == 0 {
        spec_constant(0, 0, 0, 0)
    } else {
        spec_seq(fold_exprs(callees, s.drop_last()), expr_cost(callees, s.last()))
    }
}

/// Cost of a statement.
pub open spec fn stmt_cost(callees: Map<Seq<char>, CostVector>, st: Stmt) -> CostVector
    decreases st,
{
    match st {
        Stmt::Let(_, _, e) => expr_cost(callees, e),
        Stmt::Expr(e) => expr_cost(callees, e),
    }
}

/// Sequential cost of statements.
pub open spec fn fold_stmts(callees: Map<Seq<char>, CostVector>, s: Seq<Stmt>) -> CostVector
    decreases s,
{
    if s.len() == 0 {
        spec_constant(0, 0, 0, 0)
    } else {
        spec_seq(fold_stmts(callees, s.drop_last()), stmt_cost(callees, s.last()))
    }
}

/// Sequential cost of struct-literal field initializers.
pub open spec fn fold_fields(
    callees: Map<Seq<char>, CostVector>,
    s: Seq<(String, Expr)>,
) -> CostVector
    decreases s,
{
    if s.len() == 0 {
        spec_constant(0, 0, 0, 0)
    } else {
        spec_seq(fold_fields(callees, s.drop_last()), expr_cost(callees, s.last().1))
    }
}

/// Cost of a match arm: guard (if any) then body.
pub open spec fn match_arm_cost(callees: Map<Seq<char>, CostVector>, arm: MatchArm) -> CostVector
    decreases arm,
{
    match arm.guard {
        Some(g) => spec_seq(expr_cost(callees, g), expr_cost(callees, arm.body)),
        None => expr_cost(callees, arm.body),
    }
}

/// Largest arm cost.
pub open spec fn fold_arms(callees: Map<Seq<char>, CostVector>, s: Seq<MatchArm>) -> CostVector
    decreases s,
{
    if s.len() == 0 {
        spec_constant(0, 0, 0, 0)
    } else {
        spec_vmax(fold_arms(callees, s.drop_last()), match_arm_cost(callees, s.last()))
    }
}

/// Sequential cost of the interpolated parts of an f-string or t-string.
pub open spec fn fold_parts(callees: Map<Seq<char>, CostVector>, s: Seq<StrPart>) -> CostVector
    decreases s,
{
    if s.len() == 0 {
        spec_constant(0, 0, 0, 0)
    } else {
        match s.last() {
            StrPart::Expr(e) => spec_seq(fold_parts(callees, s.drop_last()), expr_cost(callees, e)),
            StrPart::Literal(_) => fold_parts(callees, s.drop_last()),
        }
    }
}

/// Cost of a select arm: its source or duration, then its body.
pub open spec fn select_arm_cost(callees: Map<Seq<char>, CostVector>, arm: SelectArm) -> CostVector
    decreases arm,
{
    match arm {
        SelectArm::Recv { binding: _, source, body } => spec_seq(
            expr_cost(callees, source),
            expr_cost(callees, body),
        ),
        SelectArm::Timeout { duration, body } => spec_seq(
            expr_cost(callees, duration),
            expr_cost(callees, body),
        ),
    }
}

/// Largest select-arm cost.
pub open spec fn fold_select(callees: Map<Seq<char>, CostVector>, s: Seq<SelectArm>) -> CostVector
    decreases s,
{
    if s.len() == 0 {
        spec_constant(0, 0, 0, 0)
    } else {
        spec_vmax(fold_select(callees, s.drop_last()), select_arm_cost(callees, s.last()))
    }
}

/// `acc` followed by every handler payload value.
pub open spec fn fold_payload(
    callees: Map<Seq<char>, CostVector>,
    acc: CostVector,
    s: Seq<(String, Expr)>,
) -> CostVector
    decreases s,
{
    if s.len() == 0 {
        acc
    } else {
        spec_seq(fold_payload(callees, acc, s.drop_last()), expr_cost(callees, s.last().1))
    }
}

/// The handled body's cost followed by the payloads of installed handlers.
pub open spec fn fold_handle_body(
    callees: Map<Seq<char>, CostVector>,
    acc: CostVector,
    s: Seq<HandleBinding>,
) -> CostVector
    decreases s,
{
    if s.len() == 0 {
        acc
    } else {
        match s.last() {
            HandleBinding::Use(p) => fold_payload(
                callees,
                fold_handle_body(callees, acc, s.drop_last()),
                p@,
            ),
            HandleBinding::On(_) => fold_handle_body(callees, acc, s.drop_last()),
        }
    }
}

/// Largest inline handler-arm cost.
pub open spec fn fold_handle_max(
    callees: Map<Seq<char>, CostVector>,
    s: Seq<HandleBinding>,
) -> CostVector
    decreases s,
{
    if s.len() == 0 {
        spec_constant(0, 0, 0, 0)
    } else {
        match s.last() {
            HandleBinding::On(e) => spec_vmax(
                fold_handle_max(callees, s.drop_last()),
                expr_cost(callees, e),
            ),
            HandleBinding::Use(_) => fold_handle_max(callees, s.drop_last()),
        }
    }
}


impl CostAnalyzer {
    /// Walk an expression and return its four-dimensional cost.
    pub fn analyze_expr_cost(&self, expr: &Expr) -> (r: CostVector)
        requires
            placeholder_free(*expr),
        ensures
            r == expr_cost(self.vector_map(), *expr),
        decreases expr,
    {
        let ghost c = self.vector_map();
        match expr {
            // --- Leaves (zero cost) ---
            Expr::IntLit(_) | Expr::FloatLit(_) | Expr::BoolLit(_) | Expr::CharLit(_) => {
                CostVector::zero()
            },
            Expr::Var(_) => CostVector::zero(),
            // String literal: alloc = ⌈len/8⌉
            Expr::StrLit(s) => {
                let len = s.as_str().len();
                let n = len as u64;
                let cells = n / 8 + if n % 8 != 0 { 1 } else { 0 };
                assert(cells == (n + 7) / 8) by (nonlinear_arith)
                    requires
                        cells == n / 8 + if n % 8 != 0 { 1int } else { 0int },
                ;
                CostVector::constant(0, cells, 0, 0)
            },
            // Binary operation
            Expr::BinOp(lhs, op, rhs) => {
                let lhs_cost = self.analyze_expr_cost(lhs);
                let rhs_cost = self.analyze_expr_cost(rhs);
                let is_float = is_float_expr(lhs) || is_float_expr(rhs);
                let op_cv = CostVector::constant(binop_compute_cost(op, is_float), 0, 0, 0);
                lhs_cost.seq(&rhs_cost).seq(&op_cv)
            },
            // Unary operation: 1 compute op
            Expr::UnaryOp(_, inner) => {
                let inner_cost = self.analyze_expr_cost(inner);
                inner_cost.seq(&CostVector::constant(1, 0, 0, 0))
            },
            // Function call
            Expr::Call(callee, args) => {
                let mut total = self.fold_expr_costs(args);
                // Call overhead: 3 compute ops
                total = total.seq(&CostVector::constant(3, 0, 0, 0));
                if let Expr::Var(name) = &**callee {
                    if is_io_function(name.as_str()) {
                        total = total.seq(&CostVector::constant(0, 0, 1, 0));
                    }
                    if let Some(callee_cv) = self.cost_vectors.get(name.as_str()) {
                        total = total.seq(callee_cv);
                    }
                }
                total
            },
            // If expression: cond + max(then, else)
            Expr::If(cond, then_br, else_br) => {
                let cond_cost = self.analyze_expr_cost(cond);
                let then_cost = self.analyze_expr_cost(then_br);
                let else_cost = match else_br {
                    Some(e) => self.analyze_expr_cost(e),
                    None => CostVector::zero(),
                };
                let branch_max = then_cost.max(&else_cost);
                cond_cost.seq(&branch_max)
            },
            // Match: scrutinee + max(arm bodies) + arms×1 compute
            Expr::Match(scrutinee, arms) => {
                let scrutinee_cost = self.analyze_expr_cost(scrutinee);
                let arm_count = arms.len() as u64;
                let max_arm = self.fold_match_arm_costs(arms);
                scrutinee_cost.seq(&max_arm).seq(&CostVector::constant(arm_count, 0, 0, 0))
            },
            // Block: sequential composition of statements + optional tail
            Expr::Block(stmts, tail) => {
                let mut total = self.fold_stmt_costs(stmts);
                if let Some(tail_expr) = tail {
                    total = total.seq(&self.analyze_expr_cost(tail_expr));
                }
                total
            },
            // Struct literal: alloc = field_count cells
            Expr::StructLit(_, fields) => {
                let total = self.fold_field_costs(fields);
                total.seq(&CostVector::constant(0, fields.len() as u64, 0, 0))
            },
            // List literal: alloc = element_count + 1 cells
            Expr::List(elems) => {
                let total = self.fold_expr_costs(elems);
                let n = elems.len() as u64;
                let cells = if n == u64::MAX { u64::MAX } else { n + 1 };
                total.seq(&CostVector::constant(0, cells, 0, 0))
            },
            // Lambda: alloc = captured_var_count (0 without scope analysis)
            Expr::Lambda(params, _body) => {
                // Approximate capture count as parameter count.
                CostVector::constant(0, params.len() as u64, 0, 0)
            },
            // Spawn: +1 parallel lane
            Expr::Spawn(inner) => self.analyze_expr_cost(inner).seq(&CostVector::constant(0, 0, 0, 1)),
            Expr::Await(inner) | Expr::Try(inner) | Expr::Throw(inner) => {
                self.analyze_expr_cost(inner)
            },
            Expr::ChannelNew { buffer, .. } => self.analyze_expr_cost(buffer),
            Expr::Return(inner) => match inner {
                Some(e) => self.analyze_expr_cost(e),
                None => CostVector::zero(),
            },
            // Pipe: sequential
            Expr::Pipe(lhs, rhs) => self.analyze_expr_cost(lhs).seq(&self.analyze_expr_cost(rhs)),
            Expr::FieldAccess(inner, _) => self.analyze_expr_cost(inner),
            // FString / TString: sum of parts + 1 alloc cell
            Expr::FString(parts) | Expr::TString(parts) => {
                let total = self.fold_part_costs(parts);
                total.seq(&CostVector::constant(0, 1, 0, 0))
            },
            // Parallel scope: +1 parallel lane
            Expr::ParallelScope { lanes, body } => {
                let mut total = CostVector::zero();
                if let Some(lanes_expr) = lanes {
                    total = total.seq(&self.analyze_expr_cost(lanes_expr));
                }
                total.seq(&self.analyze_expr_cost(body)).seq(&CostVector::constant(0, 0, 0, 1))
            },
            // Select: max of arm costs
            Expr::Select(arms) => self.fold_select_arm_costs(arms),
            Expr::Hole(..) => CostVector::constant(1, 0, 0, 0),
            // Parsing replaces every placeholder by a lambda.
            Expr::Placeholder => {
                assert(false);
                CostVector::zero()
            },
            // Perform: 1 IO cost (effect invocation)
            Expr::Perform { args, .. } => {
                let total = self.fold_expr_costs(args);
                total.seq(&CostVector::constant(1, 0, 1, 0))
            },
            // Handle: body cost + max(handler arm costs)
            Expr::Handle { body, handlers } => {
                let body_cost = self.analyze_expr_cost(body);
                self.handle_cost(body_cost, handlers)
            },
        }
    }


    /// Largest cost over match arms (guard, then body).
    fn fold_match_arm_costs(&self, arms: &Vec<MatchArm>) -> (r: CostVector)
        requires
            forall|k: int| 0 <= k < arms@.len() ==> placeholder_free((#[trigger] arms@[k]).body)
                && match arms@[k].guard {
                    Some(g) => placeholder_free(g),
                    None => true,
                },
        ensures
            r == fold_arms(self.vector_map(), arms@),
        decreases arms@,
    {
        let ghost c = self.vector_map();
        let mut max_arm = CostVector::zero();
        let mut i: usize = 0;
        #[verifier::loop_isolation(false)]
        while i < arms.len()
            invariant
                i <= arms.len(),
                c == self.vector_map(),
                max_arm == fold_arms(c, arms@.take(i as int)),
            decreases arms.len() - i,
        {
            let arm = &arms[i];
            assert(arms@[i as int] == *arm);
            let mut arm_cost = self.analyze_expr_cost(&arm.body);
            if let Some(guard) = &arm.guard {
                arm_cost = self.analyze_expr_cost(guard).seq(&arm_cost);
            }
            assert(arm_cost == match_arm_cost(c, arms@[i as int]));
            max_arm = max_arm.max(&arm_cost);
            assert(arms@.take(i + 1).drop_last() =~= arms@.take(i as int));
            assert(arms@.take(i + 1).last() == arms@[i as int]);
            i = i + 1;
        }
        assert(arms@.take(arms.len() as int) =~= arms@);
        max_arm
    }

    /// Sequential cost of statements.
    fn fold_stmt_costs(&self, stmts: &Vec<Stmt>) -> (r: CostVector)
        requires
            forall|k: int| 0 <= k < stmts@.len() ==> match #[trigger] stmts@[k] {
                Stmt::Let(_, _, x) => placeholder_free(x),
                Stmt::Expr(x) => placeholder_free(x),
            },
        ensures
            r == fold_stmts(self.vector_map(), stmts@),
        decreases stmts@,
    {
        let ghost c = self.vector_map();
        let mut total = CostVector::zero();
        let mut i: usize = 0;
        #[verifier::loop_isolation(false)]
        while i < stmts.len()
            invariant
                i <= stmts.len(),
                c == self.vector_map(),
                total == fold_stmts(c, stmts@.take(i as int)),
            decreases stmts.len() - i,
        {
            assert(stmts@[i as int] == stmts[i as int]);
            total = total.seq(&self.analyze_stmt_cost(&stmts[i]));
            assert(stmts@.take(i + 1).drop_last() =~= stmts@.take(i as int));
            i = i + 1;
        }
        assert(stmts@.take(stmts.len() as int) =~= stmts@);
        total
    }

    /// Sequential cost of struct-literal field initializers.
    fn fold_field_costs(&self, fields: &Vec<(String, Expr)>) -> (r: CostVector)
        requires
            forall|k: int| 0 <= k < fields@.len() ==> placeholder_free((#[trigger] fields@[k]).1),
        ensures
            r == fold_fields(self.vector_map(), fields@),
        decreases fields@,
    {
        let ghost c = self.vector_map();
        let mut total = CostVector::zero();
        let mut i: usize = 0;
        #[verifier::loop_isolation(false)]
        while i < fields.len()
            invariant
                i <= fields.len(),
                c == self.vector_map(),
                total == fold_fields(c, fields@.take(i as int)),
            decreases fields.len() - i,
        {
            assert(fields@[i as int] == fields[i as int]);
            total = total.seq(&self.analyze_expr_cost(&fields[i].1));
            assert(fields@.take(i + 1).drop_last() =~= fields@.take(i as int));
            i = i + 1;
        }
        assert(fields@.take(fields.len() as int) =~= fields@);
        total
    }

    /// Largest select-arm cost.
    fn fold_select_arm_costs(&self, arms: &Vec<SelectArm>) -> (r: CostVector)
        requires
            forall|k: int| 0 <= k < arms@.len() ==> match #[trigger] arms@[k] {
                SelectArm::Recv { binding: _, source, body } => placeholder_free(source)
                    && placeholder_free(body),
                SelectArm::Timeout { duration, body } => placeholder_free(duration)
                    && placeholder_free(body),
            },
        ensures
            r == fold_select(self.vector_map(), arms@),
        decreases arms@,
    {
        let ghost c = self.vector_map();
        let mut max_arm = CostVector::zero();
        let mut i: usize = 0;
        #[verifier::loop_isolation(false)]
        while i < arms.len()
            invariant
                i <= arms.len(),
                c == self.vector_map(),
                max_arm == fold_select(c, arms@.take(i as int)),
            decreases arms.len() - i,
        {
            assert(arms@[i as int] == arms[i as int]);
            let arm_cost = match &arms[i] {
                SelectArm::Recv { source, body, .. } => self.analyze_expr_cost(source).seq(
                    &self.analyze_expr_cost(body),
                ),
                SelectArm::Timeout { duration, body } => self.analyze_expr_cost(duration).seq(
                    &self.analyze_expr_cost(body),
                ),
            };
            assert(arm_cost == select_arm_cost(c, arms@[i as int]));
            max_arm = max_arm.max(&arm_cost);
            assert(arms@.take(i + 1).drop_last() =~= arms@.take(i as int));
            assert(arms@.take(i + 1).last() == arms@[i as int]);
            i = i + 1;
        }
        assert(arms@.take(arms.len() as int) =~= arms@);
        max_arm
    }

    /// The body cost followed by installed handlers' payloads, then the
    /// largest inline handler arm.
    fn handle_cost(&self, body_cost: CostVector, handlers: &Vec<HandleBinding>) -> (r: CostVector)
        requires
            forall|k: int| 0 <= k < handlers@.len() ==> match #[trigger] handlers@[k] {
                HandleBinding::Use(payload) => forall|j: int|
                    0 <= j < payload@.len() ==> placeholder_free((#[trigger] payload@[j]).1),
                HandleBinding::On(x) => placeholder_free(x),
            },
        ensures
            r == spec_seq(
                fold_handle_body(self.vector_map(), body_cost, handlers@),
                fold_handle_max(self.vector_map(), handlers@),
            ),
        decreases handlers@,
    {
        let ghost c = self.vector_map();
        let ghost b0 = body_cost;
        let mut body_cost = body_cost;
        let mut max_arm = CostVector::zero();
        let mut i: usize = 0;
        #[verifier::loop_isolation(false)]
        while i < handlers.len()
            invariant
                i <= handlers.len(),
                c == self.vector_map(),
                body_cost == fold_handle_body(c, b0, handlers@.take(i as int)),
                max_arm == fold_handle_max(c, handlers@.take(i as int)),
            decreases handlers.len() - i,
        {
            assert(handlers@[i as int] == handlers[i as int]);
            assert(handlers@.take(i + 1).drop_last() =~= handlers@.take(i as int));
            assert(handlers@.take(i + 1).last() == handlers@[i as int]);
            match &handlers[i] {
                HandleBinding::Use(payload) => {
                    body_cost = self.payload_cost(body_cost, payload);
                },
                HandleBinding::On(arm_body) => {
                    let arm_cost = self.analyze_expr_cost(arm_body);
                    max_arm = max_arm.max(&arm_cost);
                },
            }
            i = i + 1;
        }
        assert(handlers@.take(handlers.len() as int) =~= handlers@);
        body_cost.seq(&max_arm)
    }

    /// `acc` followed by every payload value.
    fn payload_cost(&self, acc: CostVector, payload: &Vec<(String, Expr)>) -> (r: CostVector)
        requires
            forall|k: int| 0 <= k < payload@.len() ==> placeholder_free((#[trigger] payload@[k]).1),
        ensures
            r == fold_payload(self.vector_map(), acc, payload@),
        decreases payload@,
    {
        let ghost c = self.vector_map();
        let ghost acc0 = acc;
        let mut total = acc;
        let mut j: usize = 0;
        #[verifier::loop_isolation(false)]
        while j < payload.len()
            invariant
                j <= payload.len(),
                c == self.vector_map(),
                total == fold_payload(c, acc0, payload@.take(j as int)),
            decreases payload.len() - j,
        {
            assert(payload@[j as int] == payload[j as int]);
            total = total.seq(&self.analyze_expr_cost(&payload[j].1));
            assert(payload@.take(j + 1).drop_last() =~= payload@.take(j as int));
            j = j + 1;
        }
        assert(payload@.take(payload.len() as int) =~= payload@);
        total
    }

    /// Sequential cost of a list of expressions.
    fn fold_expr_costs(&self, es: &Vec<Expr>) -> (r: CostVector)
        requires
            forall|k: int| 0 <= k < es@.len() ==> placeholder_free(#[trigger] es@[k]),
        ensures
            r == fold_exprs(self.vector_map(), es@),
        decreases es@,
    {
        let ghost c = self.vector_map();
        let mut total = CostVector::zero();
        let mut i: usize = 0;
        while i < es.len()
            invariant
                i <= es.len(),
                c == self.vector_map(),
                forall|k: int| 0 <= k < es@.len() ==> placeholder_free(#[trigger] es@[k]),
                total == fold_exprs(c, es@.take(i as int)),
            decreases es.len() - i,
        {
            total = total.seq(&self.analyze_expr_cost(&es[i]));
            assert(es@.take(i + 1).drop_last() =~= es@.take(i as int));
            i = i + 1;
        }
        assert(es@.take(es.len() as int) =~= es@);
        total
    }

    /// Sequential cost of the interpolated parts of a string.
    fn fold_part_costs(&self, parts: &Vec<StrPart>) -> (r: CostVector)
        requires
            forall|k: int| 0 <= k < parts@.len() ==> match #[trigger] parts@[k] {
                StrPart::Expr(x) => placeholder_free(x),
                StrPart::Literal(_) => true,
            },
        ensures
            r == fold_parts(self.vector_map(), parts@),
        decreases parts@,
    {
        let ghost c = self.vector_map();
        let mut total = CostVector::zero();
        let mut i: usize = 0;
        while i < parts.len()
            invariant
                i <= parts.len(),
                c == self.vector_map(),
                forall|k: int| 0 <= k < parts@.len() ==> match #[trigger] parts@[k] {
                    StrPart::Expr(x) => placeholder_free(x),
                    StrPart::Literal(_) => true,
                },
                total == fold_parts(c, parts@.take(i as int)),
            decreases parts.len() - i,
        {
            assert(parts@[i as int] == parts[i as int]);
            if let StrPart::Expr(e) = &parts[i] {
                total = total.seq(&self.analyze_expr_cost(e));
            }
            assert(parts@.take(i + 1).drop_last() =~= parts@.take(i as int));
            i = i + 1;
        }
        assert(parts@.take(parts.len() as int) =~= parts@);
        total
    }

    /// Walk a statement and return its cost.
    fn analyze_stmt_cost(&self, stmt: &Stmt) -> (r: CostVector)
        requires
            match *stmt {
                Stmt::Let(_, _, x) => placeholder_free(x),
                Stmt::Expr(x) => placeholder_free(x),
            },
        ensures
            r == stmt_cost(self.vector_map(), *stmt),
        decreases stmt,
    {
        match stmt {
            Stmt::Let(_, _, expr) | Stmt::Expr(expr) => self.analyze_expr_cost(expr),
        }
    }
}


// ---------------------------------------------------------------------------
// Call sites and structural recursion
// ---------------------------------------------------------------------------

/// Classification of an argument at a recursive call site.
#[derive(Debug, PartialEq, Eq)]
pub enum CallArg {
    /// The argument is the same variable as the corresponding parameter.
    Same(String),
    /// The argument is `param - const` (structurally decreasing).
    Decreasing,
    /// Something else (cannot classify).
    Other,
}

/// `param - <positive int literal>` is decreasing, a variable is passed
/// through, anything else is unclassified.
pub open spec fn spec_classify_arg(e: Expr) -> CallArg {
    match e {
        Expr::Var(name) => CallArg::Same(name),
        Expr::BinOp(lhs, op, rhs) => if op == BinOp::Sub && *lhs is Var && *rhs is IntLit
            && rhs->IntLit_0 > 0 {
            CallArg::Decreasing
        } else {
            CallArg::Other
        },
        _ => CallArg::Other,
    }
}

/// Check if an expression is a positive integer literal.
pub fn is_positive_int(expr: &Expr) -> (b: bool)
    ensures
        b == (*expr is IntLit && expr->IntLit_0 > 0),
{
    match expr {
        Expr::IntLit(n) => *n > 0,
        _ => false,
    }
}

/// Classify an argument expression for structural recursion detection.
pub fn classify_arg(expr: &Expr) -> (r: CallArg)
    ensures
        r == spec_classify_arg(*expr),
{
    match expr {
        // Same variable passed through
        Expr::Var(name) => CallArg::Same(name.clone()),
        // `param - <int literal>` → structurally decreasing
        Expr::BinOp(lhs, BinOp::Sub, rhs) => {
            if matches!(**lhs, Expr::Var(_)) && is_positive_int(rhs) {
                CallArg::Decreasing
            } else {
                CallArg::Other
            }
        },
        _ => CallArg::Other,
    }
}

/// A call site: the callee's name when it is a plain variable, and the
/// classified arguments.
#[derive(Debug)]
pub struct CallSite {
    pub callee: Option<String>,
    pub args: Vec<CallArg>,
}

/// What a call site records.
pub open spec fn site_view(c: CallSite) -> (Option<String>, Seq<CallArg>) {
    (c.callee, c.args@)
}

/// The record of the call `callee(args)`.
pub open spec fn spec_site(callee: Expr, args: Seq<Expr>) -> (Option<String>, Seq<CallArg>) {
    (
        match callee {
            Expr::Var(n) => Some(n),
            _ => None,
        },
        args.map_values(|a: Expr| spec_classify_arg(a)),
    )
}

/// Every call in `e`, in walk order: a call comes before the calls inside its
/// callee, which come before those in its arguments; sub-expressions are
/// walked left to right.
pub open spec fn call_sites(e: Expr) -> Seq<(Option<String>, Seq<CallArg>)>
    decreases e,
{
    match e {
        Expr::Call(f, args) => seq![spec_site(*f, args@)] + call_sites(*f) + sites_exprs(args@),
        Expr::BinOp(a, _, b) => call_sites(*a) + call_sites(*b),
        Expr::Pipe(a, b) => call_sites(*a) + call_sites(*b),
        Expr::UnaryOp(_, a) => call_sites(*a),
        Expr::FieldAccess(a, _) => call_sites(*a),
        Expr::Try(a) => call_sites(*a),
        Expr::Spawn(a) => call_sites(*a),
        Expr::Await(a) => call_sites(*a),
        Expr::Throw(a) => call_sites(*a),
        Expr::ChannelNew { buffer, .. } => call_sites(*buffer),
        Expr::If(c, t, el) => call_sites(*c) + call_sites(*t) + match el {
            Some(x) => call_sites(*x),
            None => Seq::empty(),
        },
        Expr::Block(stmts, tail) => sites_stmts(stmts@) + match tail {
            Some(x) => call_sites(*x),
            None => Seq::empty(),
        },
        Expr::Match(s, arms) => call_sites(*s) + sites_arms(arms@),
        Expr::Lambda(_, b) => call_sites(*b),
        Expr::ParallelScope { lanes, body } => {
            let l = match lanes {
                Some(x) => call_sites(*x),
                None => Seq::empty(),
            };
            l + call_sites(*body)
        },
        Expr::Select(arms) => sites_select(arms@),
        Expr::Return(x) => match x {
            Some(y) => call_sites(*y),
            None => Seq::empty(),
        },
        Expr::List(es) => sites_exprs(es@),
        Expr::StructLit(_, fields) => sites_fields(fields@),
        Expr::FString(parts) => sites_parts(parts@),
        Expr::TString(parts) => sites_parts(parts@),
        Expr::Perform { effect: _, operation: _, args } => sites_exprs(args@),
        Expr::Handle { body, handlers } => call_sites(*body) + sites_handlers(handlers@),
        _ => Seq::empty(),
    }
}

pub open spec fn sites_exprs(s: Seq<Expr>) -> Seq<(Option<String>, Seq<CallArg>)>
    decreases s,
{
    if s.len() == 0 {
        Seq::empty()
    } else {
        sites_exprs(s.drop_last()) + call_sites(s.last())
    }
}

pub open spec fn sites_stmt(st: Stmt) -> Seq<(Option<String>, Seq<CallArg>)>
    decreases st,
{
    match st {
        Stmt::Let(_, _, e) => call_sites(e),
        Stmt::Expr(e) => call_sites(e),
    }
}

pub open spec fn sites_stmts(s: Seq<Stmt>) -> Seq<(Option<String>, Seq<CallArg>)>
    decreases s,
{
    if s.len() == 0 {
        Seq::empty()
    } else {
        sites_stmts(s.drop_last()) + sites_stmt(s.last())
    }
}

pub open spec fn sites_arm(arm: MatchArm) -> Seq<(Option<String>, Seq<CallArg>)>
    decreases arm,
{
    match arm.guard {
        Some(g) => call_sites(g) + call_sites(arm.body),
        None => call_sites(arm.body),
    }
}

pub open spec fn sites_arms(s: Seq<MatchArm>) -> Seq<(Option<String>, Seq<CallArg>)>
    decreases s,
{
    if s.len() == 0 {
        Seq::empty()
    } else {
        sites_arms(s.drop_last()) + sites_arm(s.last())
    }
}

pub open spec fn sites_fields(s: Seq<(String, Expr)>) -> Seq<(Option<String>, Seq<CallArg>)>
    decreases s,
{
    if s.len() == 0 {
        Seq::empty()
    } else {
        sites_fields(s.drop_last()) + call_sites(s.last().1)
    }
}

pub open spec fn sites_parts(s: Seq<StrPart>) -> Seq<(Option<String>, Seq<CallArg>)>
    decreases s,
{
    if s.len() == 0 {
        Seq::empty()
    } else {
        sites_parts(s.drop_last()) + match s.last() {
            StrPart::Expr(e) => call_sites(e),
            StrPart::Literal(_) => Seq::empty(),
        }
    }
}

pub open spec fn sites_select_arm(arm: SelectArm) -> Seq<(Option<String>, Seq<CallArg>)>
    decreases arm,
{
    match arm {
        SelectArm::Recv { binding: _, source, body } => call_sites(source) + call_sites(body),
        SelectArm::Timeout { duration, body } => call_sites(duration) + call_sites(body),
    }
}

pub open spec fn sites_select(s: Seq<SelectArm>) -> Seq<(Option<String>, Seq<CallArg>)>
    decreases s,
{
    if s.len() == 0 {
        Seq::empty()
    } else {
        sites_select(s.drop_last()) + sites_select_arm(s.last())
    }
}

pub open spec fn sites_handlers(s: Seq<HandleBinding>) -> Seq<(Option<String>, Seq<CallArg>)>
    decreases s,
{
    if s.len() == 0 {
        Seq::empty()
    } else {
        sites_handlers(s.drop_last()) + match s.last() {
            HandleBinding::Use(p) => sites_fields(p@),
            HandleBinding::On(e) => call_sites(e),
        }
    }
}

/// Appends the record of every call in `expr`, in walk order.
pub fn collect_call_sites(expr: &Expr, out: &mut Vec<CallSite>)
    ensures
        final(out)@.map_values(|c: CallSite| site_view(c))
            == old(out)@.map_values(|c: CallSite| site_view(c)) + call_sites(*expr),
    decreases expr,
{
    let ghost o0 = out@.map_values(|c: CallSite| site_view(c));
    match expr {
        Expr::Call(callee, args) => {
            let name = match &**callee {
                Expr::Var(n) => Some(n.clone()),
                _ => None,
            };
            let mut classified: Vec<CallArg> = Vec::new();
            let mut i: usize = 0;
            while i < args.len()
                invariant
                    i <= args.len(),
                    classified@ =~= args@.take(i as int).map_values(|a: Expr| spec_classify_arg(a)),
                decreases args.len() - i,
            {
                classified.push(classify_arg(&args[i]));
                i = i + 1;
            }
            assert(args@.take(args.len() as int) =~= args@);
            let ghost site = CallSite { callee: name, args: classified };
            out.push(CallSite { callee: name, args: classified });
            assert(out@.map_values(|c: CallSite| site_view(c)) =~= o0 + seq![spec_site(**callee, args@)]);
            collect_call_sites(callee, out);
            collect_sites_in_exprs(args, out);
        },
        Expr::BinOp(lhs, _, rhs) | Expr::Pipe(lhs, rhs) => {
            collect_call_sites(lhs, out);
            collect_call_sites(rhs, out);
        },
        Expr::UnaryOp(_, inner) | Expr::FieldAccess(inner, _) | Expr::Try(inner) | Expr::Spawn(inner)
        | Expr::Await(inner) | Expr::Throw(inner) => {
            collect_call_sites(inner, out);
        },
        Expr::ChannelNew { buffer, .. } => {
            collect_call_sites(buffer, out);
        },
        Expr::If(cond, then_br, else_br) => {
            collect_call_sites(cond, out);
            collect_call_sites(then_br, out);
            if let Some(e) = else_br {
                collect_call_sites(e, out);
            }
        },
        Expr::Block(stmts, tail) => {
            collect_sites_in_stmts(stmts, out);
            if let Some(tail_expr) = tail {
                collect_call_sites(tail_expr, out);
            }
        },
        Expr::Match(scrutinee, arms) => {
            collect_call_sites(scrutinee, out);
            collect_sites_in_arms(arms, out);
        },
        Expr::Lambda(_, body) => {
            collect_call_sites(body, out);
        },
        Expr::ParallelScope { lanes, body } => {
            if let Some(lanes_expr) = lanes {
                collect_call_sites(lanes_expr, out);
            }
            collect_call_sites(body, out);
        },
        Expr::Select(arms) => {
            collect_sites_in_select(arms, out);
        },
        Expr::Return(inner) => {
            if let Some(e) = inner {
                collect_call_sites(e, out);
            }
        },
        Expr::List(elems) => {
            collect_sites_in_exprs(elems, out);
        },
        Expr::StructLit(_, fields) => {
            collect_sites_in_fields(fields, out);
        },
        Expr::FString(parts) | Expr::TString(parts) => {
            collect_sites_in_parts(parts, out);
        },
        Expr::Perform { args, .. } => {
            collect_sites_in_exprs(args, out);
        },
        Expr::Handle { body, handlers } => {
            collect_call_sites(body, out);
            collect_sites_in_handlers(handlers, out);
        },
        // Leaves — no recursion
        Expr::IntLit(_) | Expr::FloatLit(_) | Expr::StrLit(_) | Expr::BoolLit(_) | Expr::CharLit(_)
        | Expr::Var(_) | Expr::Hole(..) | Expr::Placeholder => {},
    }
    assert(out@.map_values(|c: CallSite| site_view(c)) =~= o0 + call_sites(*expr));
}

fn collect_sites_in_exprs(es: &Vec<Expr>, out: &mut Vec<CallSite>)
    ensures
        final(out)@.map_values(|c: CallSite| site_view(c))
            == old(out)@.map_values(|c: CallSite| site_view(c)) + sites_exprs(es@),
    decreases es@,
{
    let ghost o0 = out@.map_values(|c: CallSite| site_view(c));
    let mut i: usize = 0;
    #[verifier::loop_isolation(false)]
    while i < es.len()
        invariant
            i <= es.len(),
            out@.map_values(|c: CallSite| site_view(c)) == o0 + sites_exprs(es@.take(i as int)),
        decreases es.len() - i,
    {
        collect_call_sites(&es[i], out);
        assert(es@.take(i + 1).drop_last() =~= es@.take(i as int));
        assert(out@.map_values(|c: CallSite| site_view(c)) =~= o0 + sites_exprs(es@.take(i + 1)));
        i = i + 1;
    }
    assert(es@.take(es.len() as int) =~= es@);
}

fn collect_sites_in_stmts(stmts: &Vec<Stmt>, out: &mut Vec<CallSite>)
    ensures
        final(out)@.map_values(|c: CallSite| site_view(c))
            == old(out)@.map_values(|c: CallSite| site_view(c)) + sites_stmts(stmts@),
    decreases stmts@,
{
    let ghost o0 = out@.map_values(|c: CallSite| site_view(c));
    let mut i: usize = 0;
    #[verifier::loop_isolation(false)]
    while i < stmts.len()
        invariant
            i <= stmts.len(),
            out@.map_values(|c: CallSite| site_view(c)) == o0 + sites_stmts(stmts@.take(i as int)),
        decreases stmts.len() - i,
    {
        assert(stmts@[i as int] == stmts[i as int]);
        let ghost before = out@.map_values(|c: CallSite| site_view(c));
        match &stmts[i] {
            Stmt::Let(_, _, e) | Stmt::Expr(e) => collect_call_sites(e, out),
        }
        assert(out@.map_values(|c: CallSite| site_view(c)) =~= before + sites_stmt(stmts@[i as int]));
        assert(stmts@.take(i + 1).drop_last() =~= stmts@.take(i as int));
        assert(stmts@.take(i + 1).last() == stmts@[i as int]);
        assert(sites_stmts(stmts@.take(i + 1)) =~= sites_stmts(stmts@.take(i as int)) + sites_stmt(stmts@[i as int]));
        assert(stmts@.take(i + 1).drop_last() =~= stmts@.take(i as int));
        assert(stmts@.take(i + 1).last() == stmts@[i as int]);
        assert(out@.map_values(|c: CallSite| site_view(c)) =~= o0 + sites_stmts(stmts@.take(i + 1)));
        i = i + 1;
    }
    assert(stmts@.take(stmts.len() as int) =~= stmts@);
}

fn collect_sites_in_arms(arms: &Vec<MatchArm>, out: &mut Vec<CallSite>)
    ensures
        final(out)@.map_values(|c: CallSite| site_view(c))
            == old(out)@.map_values(|c: CallSite| site_view(c)) + sites_arms(arms@),
    decreases arms@,
{
    let ghost o0 = out@.map_values(|c: CallSite| site_view(c));
    let mut i: usize = 0;
    #[verifier::loop_isolation(false)]
    while i < arms.len()
        invariant
            i <= arms.len(),
            out@.map_values(|c: CallSite| site_view(c)) == o0 + sites_arms(arms@.take(i as int)),
        decreases arms.len() - i,
    {
        let arm = &arms[i];
        assert(arms@[i as int] == *arm);
        let ghost before = out@.map_values(|c: CallSite| site_view(c));
        if let Some(guard) = &arm.guard {
            collect_call_sites(guard, out);
        }
        collect_call_sites(&arm.body, out);
        assert(out@.map_values(|c: CallSite| site_view(c)) =~= before + sites_arm(arms@[i as int]));
        assert(arms@.take(i + 1).drop_last() =~= arms@.take(i as int));
        assert(arms@.take(i + 1).last() == arms@[i as int]);
        assert(sites_arms(arms@.take(i + 1)) =~= sites_arms(arms@.take(i as int)) + sites_arm(arms@[i as int]));
        assert(arms@.take(i + 1).drop_last() =~= arms@.take(i as int));
        assert(arms@.take(i + 1).last() == arms@[i as int]);
        assert(out@.map_values(|c: CallSite| site_view(c)) =~= o0 + sites_arms(arms@.take(i + 1)));
        i = i + 1;
    }
    assert(arms@.take(arms.len() as int) =~= arms@);
}

fn collect_sites_in_fields(fields: &Vec<(String, Expr)>, out: &mut Vec<CallSite>)
    ensures
        final(out)@.map_values(|c: CallSite| site_view(c))
            == old(out)@.map_values(|c: CallSite| site_view(c)) + sites_fields(fields@),
    decreases fields@,
{
    let ghost o0 = out@.map_values(|c: CallSite| site_view(c));
    let mut i: usize = 0;
    #[verifier::loop_isolation(false)]
    while i < fields.len()
        invariant
            i <= fields.len(),
            out@.map_values(|c: CallSite| site_view(c)) == o0 + sites_fields(fields@.take(i as int)),
        decreases fields.len() - i,
    {
        assert(fields@[i as int] == fields[i as int]);
        collect_call_sites(&fields[i].1, out);
        assert(fields@.take(i + 1).drop_last() =~= fields@.take(i as int));
        assert(out@.map_values(|c: CallSite| site_view(c)) =~= o0 + sites_fields(fields@.take(i + 1)));
        i = i + 1;
    }
    assert(fields@.take(fields.len() as int) =~= fields@);
}

fn collect_sites_in_parts(parts: &Vec<StrPart>, out: &mut Vec<CallSite>)
    ensures
        final(out)@.map_values(|c: CallSite| site_view(c))
            == old(out)@.map_values(|c: CallSite| site_view(c)) + sites_parts(parts@),
    decreases parts@,
{
    let ghost o0 = out@.map_values(|c: CallSite| site_view(c));
    let mut i: usize = 0;
    #[verifier::loop_isolation(false)]
    while i < parts.len()
        invariant
            i <= parts.len(),
            out@.map_values(|c: CallSite| site_view(c)) == o0 + sites_parts(parts@.take(i as int)),
        decreases parts.len() - i,
    {
        assert(parts@[i as int] == parts[i as int]);
        if let StrPart::Expr(e) = &parts[i] {
            collect_call_sites(e, out);
        }
        assert(parts@.take(i + 1).drop_last() =~= parts@.take(i as int));
        assert(out@.map_values(|c: CallSite| site_view(c)) =~= o0 + sites_parts(parts@.take(i + 1)));
        i = i + 1;
    }
    assert(parts@.take(parts.len() as int) =~= parts@);
}

fn collect_sites_in_select(arms: &Vec<SelectArm>, out: &mut Vec<CallSite>)
    ensures
        final(out)@.map_values(|c: CallSite| site_view(c))
            == old(out)@.map_values(|c: CallSite| site_view(c)) + sites_select(arms@),
    decreases arms@,
{
    let ghost o0 = out@.map_values(|c: CallSite| site_view(c));
    let mut i: usize = 0;
    #[verifier::loop_isolation(false)]
    while i < arms.len()
        invariant
            i <= arms.len(),
            out@.map_values(|c: CallSite| site_view(c)) == o0 + sites_select(arms@.take(i as int)),
        decreases arms.len() - i,
    {
        assert(arms@[i as int] == arms[i as int]);
        let ghost before = out@.map_values(|c: CallSite| site_view(c));
        match &arms[i] {
            SelectArm::Recv { source, body, .. } => {
                collect_call_sites(source, out);
                collect_call_sites(body, out);
            },
            SelectArm::Timeout { duration, body } => {
                collect_call_sites(duration, out);
                collect_call_sites(body, out);
            },
        }
        assert(out@.map_values(|c: CallSite| site_view(c)) =~= before + sites_select_arm(arms@[i as int]));
        assert(arms@.take(i + 1).drop_last() =~= arms@.take(i as int));
        assert(arms@.take(i + 1).last() == arms@[i as int]);
        assert(sites_select(arms@.take(i + 1)) =~= sites_select(arms@.take(i as int)) + sites_select_arm(arms@[i as int]));
        assert(arms@.take(i + 1).drop_last() =~= arms@.take(i as int));
        assert(arms@.take(i + 1).last() == arms@[i as int]);
        assert(out@.map_values(|c: CallSite| site_view(c)) =~= o0 + sites_select(arms@.take(i + 1)));
        i = i + 1;
    }
    assert(arms@.take(arms.len() as int) =~= arms@);
}

fn collect_sites_in_handlers(handlers: &Vec<HandleBinding>, out: &mut Vec<CallSite>)
    ensures
        final(out)@.map_values(|c: CallSite| site_view(c))
            == old(out)@.map_values(|c: CallSite| site_view(c)) + sites_handlers(handlers@),
    decreases handlers@,
{
    let ghost o0 = out@.map_values(|c: CallSite| site_view(c));
    let mut i: usize = 0;
    #[verifier::loop_isolation(false)]
    while i < handlers.len()
        invariant
            i <= handlers.len(),
            out@.map_values(|c: CallSite| site_view(c)) == o0 + sites_handlers(handlers@.take(i as int)),
        decreases handlers.len() - i,
    {
        assert(handlers@[i as int] == handlers[i as int]);
        match &handlers[i] {
            HandleBinding::Use(payload) => collect_sites_in_fields(payload, out),
            HandleBinding::On(body) => collect_call_sites(body, out),
        }
        assert(handlers@.take(i + 1).drop_last() =~= handlers@.take(i as int));
        assert(out@.map_values(|c: CallSite| site_view(c)) =~= o0 + sites_handlers(handlers@.take(i + 1)));
        i = i + 1;
    }
    assert(handlers@.take(handlers.len() as int) =~= handlers@);
}


/// Argument lists of the calls to `fn_name` among `sites`, in order.
pub open spec fn recursive_args(
    fn_name: Seq<char>,
    sites: Seq<(Option<String>, Seq<CallArg>)>,
) -> Seq<Seq<CallArg>>
    decreases sites.len(),
{
    if sites.len() == 0 {
        Seq::empty()
    } else {
        let rest = recursive_args(fn_name, sites.drop_last());
        let last = sites.last();
        if last.0 is Some && last.0->Some_0@ == fn_name {
            rest.push(last.1)
        } else {
            rest
        }
    }
}

/// Names of the functions called by plain name among `sites`, other than
/// `self_name`, one entry per call site.
pub open spec fn callee_names(
    self_name: Seq<char>,
    sites: Seq<(Option<String>, Seq<CallArg>)>,
) -> Seq<Seq<char>>
    decreases sites.len(),
{
    if sites.len() == 0 {
        Seq::empty()
    } else {
        let rest = callee_names(self_name, sites.drop_last());
        let last = sites.last();
        if last.0 is Some && last.0->Some_0@ != self_name {
            rest.push(last.0->Some_0@)
        } else {
            rest
        }
    }
}

/// Walk the AST collecting argument lists from recursive calls to `fn_name`.
pub fn collect_recursive_calls(fn_name: &str, expr: &Expr, out: &mut Vec<Vec<CallArg>>)
    ensures
        final(out)@.map_values(|v: Vec<CallArg>| v@)
            == old(out)@.map_values(|v: Vec<CallArg>| v@) + recursive_args(fn_name@, call_sites(*expr)),
{
    let mut sites: Vec<CallSite> = Vec::new();
    collect_call_sites(expr, &mut sites);
    let ghost sv = sites@.map_values(|c: CallSite| site_view(c));
    assert(sv =~= call_sites(*expr));
    let ghost o0 = arg_views(out@);
    let n = sites.len();
    let mut i: usize = 0;
    while i < n
        invariant
            i <= n,
            n == sites@.len(),
            sv == sites@.map_values(|c: CallSite| site_view(c)),
            arg_views(out@) == o0 + recursive_args(fn_name@, sv.take(i as int)),
        decreases n - i,
    {
        let site = &sites[i];
        assert(sv[i as int] == site_view(*site));
        assert(sv.take(i + 1).drop_last() =~= sv.take(i as int));
        if let Some(name) = &site.callee {
            if str_eq(name.as_str(), fn_name) {
                let ghost before = out@;
                out.push(clone_args(&site.args));
                assert(arg_views(out@) =~= before.map_values(|v: Vec<CallArg>| v@).push(site.args@));
            }
        }
        i = i + 1;
    }
    assert(sv.take(n as int) =~= sv);
}

impl Clone for CallArg {
    fn clone(&self) -> (r: Self)
        ensures
            r == *self,
    {
        match self {
            CallArg::Same(n) => CallArg::Same(n.clone()),
            CallArg::Decreasing => CallArg::Decreasing,
            CallArg::Other => CallArg::Other,
        }
    }
}

fn clone_args(v: &Vec<CallArg>) -> (r: Vec<CallArg>)
    ensures
        r@ == v@,
{
    let mut r: Vec<CallArg> = Vec::new();
    let mut i: usize = 0;
    while i < v.len()
        invariant
            i <= v.len(),
            r@ =~= v@.take(i as int),
        decreases v.len() - i,
    {
        r.push(v[i].clone());
        i = i + 1;
    }
    assert(v@.take(v.len() as int) =~= v@);
    r
}

/// Walk the AST collecting names of non-recursive function calls.
///
/// Returns one entry per call site (duplicates allowed).
pub fn collect_callee_names(self_name: &str, expr: &Expr) -> (r: Vec<String>)
    ensures
        views(r@) == callee_names(self_name@, call_sites(*expr)),
{
    let mut sites: Vec<CallSite> = Vec::new();
    collect_call_sites(expr, &mut sites);
    let ghost sv = sites@.map_values(|c: CallSite| site_view(c));
    assert(sv =~= call_sites(*expr));
    let mut out: Vec<String> = Vec::new();
    let n = sites.len();
    let mut i: usize = 0;
    while i < n
        invariant
            i <= n,
            n == sites@.len(),
            sv == sites@.map_values(|c: CallSite| site_view(c)),
            views(out@) == callee_names(self_name@, sv.take(i as int)),
        decreases n - i,
    {
        let site = &sites[i];
        assert(sv[i as int] == site_view(*site));
        assert(sv.take(i + 1).drop_last() =~= sv.take(i as int));
        if let Some(name) = &site.callee {
            if !str_eq(name.as_str(), self_name) {
                let ghost before = out@;
                out.push(name.clone());
                assert(views(out@) =~= before.map_values(|s: String| s@).push(name@));
            }
        }
        i = i + 1;
    }
    assert(sv.take(n as int) =~= sv);
    out
}

/// The argument lists of a sequence of argument vectors.
pub open spec fn arg_views(v: Seq<Vec<CallArg>>) -> Seq<Seq<CallArg>> {
    v.map_values(|a: Vec<CallArg>| a@)
}

/// In every recursive call, argument `i` decreases.
pub open spec fn all_decrease(calls: Seq<Seq<CallArg>>, i: int) -> bool {
    forall|c: int| 0 <= c < calls.len() ==> i < (#[trigger] calls[c]).len() && calls[c][i] is Decreasing
}

/// In every recursive call, every argument other than `i` passes the
/// corresponding parameter through unchanged.
pub open spec fn others_unchanged(calls: Seq<Seq<CallArg>>, params: Seq<Seq<char>>, i: int) -> bool {
    forall|c: int, j: int|
        0 <= c < calls.len() && 0 <= j < params.len() && j != i ==> j < (#[trigger] calls[c]).len()
            && (#[trigger] calls[c][j]) is Same && calls[c][j]->Same_0@ == params[j]
}

/// Parameter `i` is structurally decreasing with all others unchanged.
pub open spec fn strictly_structural(calls: Seq<Seq<CallArg>>, params: Seq<Seq<char>>, i: int) -> bool {
    all_decrease(calls, i) && others_unchanged(calls, params, i)
}

/// Parameter `i` is the first strictly structural one.
pub open spec fn first_strict(calls: Seq<Seq<CallArg>>, params: Seq<Seq<char>>, i: int) -> bool {
    0 <= i < params.len() && strictly_structural(calls, params, i)
        && forall|k: int| 0 <= k < i ==> !strictly_structural(calls, params, k)
}

/// Parameter `i` is the first that decreases in every call.
pub open spec fn first_decreasing(calls: Seq<Seq<CallArg>>, params: Seq<Seq<char>>, i: int) -> bool {
    0 <= i < params.len() && all_decrease(calls, i)
        && forall|k: int| 0 <= k < i ==> !all_decrease(calls, k)
}

/// The parameter structural-recursion detection picks: the first strictly
/// structural parameter, else the first that decreases in every call.
pub open spec fn picked_param(calls: Seq<Seq<CallArg>>, params: Seq<Seq<char>>, i: int) -> bool {
    first_strict(calls, params, i) || (
        (forall|k: int| 0 <= k < params.len() ==> !strictly_structural(calls, params, k))
        && first_decreasing(calls, params, i))
}

fn arg_decreases(calls: &Vec<Vec<CallArg>>, i: usize) -> (b: bool)
    ensures
        b == all_decrease(arg_views(calls@), i as int),
{
    let ghost cs = arg_views(calls@);
    let mut c: usize = 0;
    while c < calls.len()
        invariant
            c <= calls.len(),
            cs == arg_views(calls@),
            forall|k: int| 0 <= k < c ==> i < (#[trigger] cs[k]).len() && cs[k][i as int] is Decreasing,
        decreases calls.len() - c,
    {
        assert(cs[c as int] == calls[c as int]@);
        if i >= calls[c].len() || !matches!(calls[c][i], CallArg::Decreasing) {
            return false;
        }
        c = c + 1;
    }
    true
}

fn args_unchanged(calls: &Vec<Vec<CallArg>>, params: &Vec<String>, i: usize) -> (b: bool)
    ensures
        b == others_unchanged(
            arg_views(calls@),
            views(params@),
            i as int,
        ),
{
    let ghost cs = arg_views(calls@);
    let ghost ps = views(params@);
    let mut c: usize = 0;
    while c < calls.len()
        invariant
            c <= calls.len(),
            cs == arg_views(calls@),
            ps == views(params@),
            forall|k: int, j: int|
                0 <= k < c && 0 <= j < ps.len() && j != i ==> j < (#[trigger] cs[k]).len()
                    && (#[trigger] cs[k][j]) is Same && cs[k][j]->Same_0@ == ps[j],
        decreases calls.len() - c,
    {
        assert(cs[c as int] == calls[c as int]@);
        let mut j: usize = 0;
        while j < params.len()
            invariant
                j <= params.len(),
                c < calls.len(),
                cs == arg_views(calls@),
                ps == views(params@),
                cs[c as int] == calls[c as int]@,
                forall|jj: int|
                    0 <= jj < j && jj != i ==> jj < cs[c as int].len()
                        && (#[trigger] cs[c as int][jj]) is Same && cs[c as int][jj]->Same_0@ == ps[jj],
            decreases params.len() - j,
        {
            if j != i {
                if j >= calls[c].len() {
                    assert(!(j < cs[c as int].len()));
                    assert(!(j < cs[c as int].len() && cs[c as int][j as int] is Same));
                    return false;
                }
                assert(cs[c as int][j as int] == calls[c as int]@[j as int]);
                match &calls[c][j] {
                    CallArg::Same(name) => {
                        if !str_eq(name.as_str(), params[j].as_str()) {
                            assert(ps[j as int] == params[j as int]@);
                            assert(!(cs[c as int][j as int]->Same_0@ == ps[j as int]));
                            return false;
                        }
                    },
                    _ => {
                        assert(!(cs[c as int][j as int] is Same));
                        return false;
                    },
                }
            }
            j = j + 1;
        }
        c = c + 1;
    }
    true
}

/// Check if a function uses structural recursion.
///
/// Returns `Some(param_name)` if exactly one parameter decreases by a constant
/// in **all** recursive calls and all other arguments are unchanged.
pub fn detect_structural_recursion(
    _fn_name: &str,
    params: &Vec<String>,
    recursive_calls: &Vec<Vec<CallArg>>,
) -> (r: Option<String>)
    ensures
        r is None <==> recursive_calls@.len() == 0 || forall|i: int| 0 <= i < params@.len()
            ==> !(#[trigger] all_decrease(arg_views(recursive_calls@), i)),
        r matches Some(p) ==> exists|i: int| #[trigger] picked_param(
            arg_views(recursive_calls@),
            views(params@),
            i,
        ) && p == params@[i],
{
    let ghost cs = arg_views(recursive_calls@);
    let ghost ps = views(params@);
    if recursive_calls.len() == 0 {
        return None;
    }
    // Check each param to see if it structurally decreases in ALL calls
    let mut i: usize = 0;
    while i < params.len()
        invariant
            i <= params.len(),
            cs == arg_views(recursive_calls@),
            ps == views(params@),
            recursive_calls@.len() > 0,
            forall|k: int| 0 <= k < i ==> !strictly_structural(cs, ps, k),
        decreases params.len() - i,
    {
        let all_dec = arg_decreases(recursive_calls, i);
        let others = args_unchanged(recursive_calls, params, i);
        if all_dec && others {
            proof {
                assert(picked_param(cs, ps, i as int));
                assert(all_decrease(cs, i as int));
            }
            let p = params[i].clone();
            return Some(p);
        }
        i = i + 1;
    }
    // Relaxed check: just require one param decreasing in all calls
    let mut i: usize = 0;
    while i < params.len()
        invariant
            i <= params.len(),
            cs == arg_views(recursive_calls@),
            ps == views(params@),
            recursive_calls@.len() > 0,
            forall|k: int| 0 <= k < params.len() ==> !strictly_structural(cs, ps, k),
            forall|k: int| 0 <= k < i ==> !all_decrease(cs, k),
        decreases params.len() - i,
    {
        if arg_decreases(recursive_calls, i) {
            proof {
                assert(picked_param(cs, ps, i as int));
            }
            return Some(params[i].clone());
        }
        i = i + 1;
    }
    None
}



// ---------------------------------------------------------------------------
// Function and module analysis
// ---------------------------------------------------------------------------

/// What a [`CostResult`] says, with the warning of `Unknown` taken by its text.
pub enum CostResultView {
    Constant(u64),
    StructuralRecursion(String),
    Declared(CostExpr),
    Unbounded,
    Unknown(Seq<char>),
}

impl View for CostResult {
    type V = CostResultView;

    open spec fn view(&self) -> CostResultView {
        match *self {
            CostResult::Constant(n) => CostResultView::Constant(n),
            CostResult::StructuralRecursion(p) => CostResultView::StructuralRecursion(p),
            CostResult::Declared(e) => CostResultView::Declared(e),
            CostResult::Unbounded => CostResultView::Unbounded,
            CostResult::Unknown(m) => CostResultView::Unknown(m@),
        }
    }
}

/// The results of a map, by their views.
pub open spec fn result_views(m: Map<Seq<char>, CostResult>) -> Map<Seq<char>, CostResultView> {
    m.map_values(|r: CostResult| r@)
}

/// The cost a clause term denotes.
pub open spec fn spec_ast_cost(ce: AstCostExpr) -> CostExpr {
    match ce {
        AstCostExpr::Literal(n) => CostExpr::Const(n),
        AstCostExpr::Var(v) => CostExpr::Var(v),
        AstCostExpr::Linear(v) => CostExpr::Linear(v),
    }
}

/// The vector a `cost [...]` clause declares.
pub open spec fn spec_clause_vector(c: CostClause) -> CostVector {
    CostVector {
        compute: spec_ast_cost(c.compute),
        alloc: spec_ast_cost(c.alloc),
        io: spec_ast_cost(c.io),
        parallel: spec_ast_cost(c.parallel),
    }
}

/// Convert a parsed cost term to a [`CostExpr`].
pub fn ast_cost_to_cost_expr(ce: &AstCostExpr) -> (r: CostExpr)
    ensures
        r == spec_ast_cost(*ce),
{
    match ce {
        AstCostExpr::Literal(n) => CostExpr::Const(*n),
        AstCostExpr::Var(v) => CostExpr::Var(v.clone()),
        AstCostExpr::Linear(v) => CostExpr::Linear(v.clone()),
    }
}

fn ast_cost_clause_to_cost_vector(clause: &CostClause) -> (r: CostVector)
    ensures
        r == spec_clause_vector(*clause),
{
    CostVector {
        compute: ast_cost_to_cost_expr(&clause.compute),
        alloc: ast_cost_to_cost_expr(&clause.alloc),
        io: ast_cost_to_cost_expr(&clause.io),
        parallel: ast_cost_to_cost_expr(&clause.parallel),
    }
}

/// The parameter names of a function.
pub open spec fn param_names(f: FnDef) -> Seq<String> {
    f.params@.map_values(|p: crate::ast::Param| p.name)
}

/// The warning for a recursive function whose cost cannot be determined.
pub open spec fn unknown_cost_message(name: Seq<char>) -> Seq<char> {
    "cannot determine cost for recursive function `"@ + name + "`"@
}

/// At most one parameter is picked.
pub proof fn lemma_picked_param_unique(calls: Seq<Seq<CallArg>>, params: Seq<Seq<char>>, i: int, j: int)
    requires
        picked_param(calls, params, i),
        picked_param(calls, params, j),
    ensures
        i == j,
{
    if i < j {
        if first_strict(calls, params, j) {
            assert(!strictly_structural(calls, params, i));
        } else {
            assert(!all_decrease(calls, i));
        }
    } else if j < i {
        if first_strict(calls, params, i) {
            assert(!strictly_structural(calls, params, j));
        } else {
            assert(!all_decrease(calls, j));
        }
    }
}

/// The one-dimensional result for a function: `@unbounded` skips analysis, a
/// declared cost clause gives its compute term, a hole body costs 1, a
/// non-recursive body costs 1, structural recursion on the picked parameter
/// is linear in it, and other recursion is unknown.
pub open spec fn fn_result(f: FnDef) -> CostResultView {
    if f.is_unbounded {
        CostResultView::Unbounded
    } else if f.cost_clause is Some {
        CostResultView::Declared(spec_ast_cost(f.cost_clause->Some_0.compute))
    } else if f.body is None {
        CostResultView::Constant(1)
    } else {
        let calls = recursive_args(f.name@, call_sites(f.body->Some_0));
        let ps = views(param_names(f));
        if calls.len() == 0 {
            CostResultView::Constant(1)
        } else if exists|i: int| #[trigger] picked_param(calls, ps, i) {
            let i = choose|i: int| #[trigger] picked_param(calls, ps, i);
            CostResultView::StructuralRecursion(param_names(f)[i])
        } else {
            CostResultView::Unknown(unknown_cost_message(f.name@))
        }
    }
}

/// Pass 1: the result of every function, later definitions of a name
/// replacing earlier ones.
pub open spec fn pass_results(
    start: Map<Seq<char>, CostResultView>,
    items: Seq<Item>,
) -> Map<Seq<char>, CostResultView>
    decreases items.len(),
{
    if items.len() == 0 {
        start
    } else {
        let m = pass_results(start, items.drop_last());
        match items.last() {
            Item::Function(f) => m.insert(f.name@, fn_result(f)),
            _ => m,
        }
    }
}

/// The walked vector of a function, given the vectors of functions walked
/// before it and the one-dimensional results.
pub open spec fn fn_vector(
    f: FnDef,
    vectors: Map<Seq<char>, CostVector>,
    results: Map<Seq<char>, CostResultView>,
) -> CostVector {
    if f.is_unbounded {
        CostVector {
            compute: CostExpr::Unbounded,
            alloc: CostExpr::Unbounded,
            io: CostExpr::Unbounded,
            parallel: CostExpr::Unbounded,
        }
    } else if f.body is None {
        spec_constant(0, 0, 0, 0)
    } else {
        let base = expr_cost(vectors, f.body->Some_0);
        if results.contains_key(f.name@) && results[f.name@] is StructuralRecursion {
            let p = results[f.name@]->StructuralRecursion_0;
            CostVector {
                compute: spec_mul_cost(base.compute, CostExpr::Linear(p)),
                alloc: spec_mul_cost(base.alloc, CostExpr::Linear(p)),
                io: spec_add_cost(base.io, CostExpr::Const(1)),
                parallel: base.parallel,
            }
        } else {
            base
        }
    }
}

/// Pass 2: the four-dimensional vector of every function, walked in order.
pub open spec fn pass_vectors(
    start: Map<Seq<char>, CostVector>,
    results: Map<Seq<char>, CostResultView>,
    items: Seq<Item>,
) -> Map<Seq<char>, CostVector>
    decreases items.len(),
{
    if items.len() == 0 {
        start
    } else {
        let m = pass_vectors(start, results, items.drop_last());
        match items.last() {
            Item::Function(f) => m.insert(f.name@, fn_vector(f, m, results)),
            _ => m,
        }
    }
}

/// The constant cost of calling the named callees on top of `base`
/// (saturating), or none when one of them is not a constant.
pub open spec fn callee_total(
    results: Map<Seq<char>, CostResultView>,
    names: Seq<Seq<char>>,
    base: u64,
) -> Option<u64>
    decreases names.len(),
{
    if names.len() == 0 {
        Some(base)
    } else {
        match callee_total(results, names.drop_last(), base) {
            None => None,
            Some(t) => if !results.contains_key(names.last()) {
                Some(t)
            } else {
                match results[names.last()] {
                    CostResultView::Constant(k) => Some(sat_add(t, k)),
                    CostResultView::Declared(CostExpr::Const(k)) => Some(sat_add(t, k)),
                    _ => None,
                }
            },
        }
    }
}

/// The propagated constant for a function whose own cost is the constant
/// `base`, if it changes.
pub open spec fn propagated(results: Map<Seq<char>, CostResultView>, f: FnDef, base: u64) -> Option<u64> {
    let names = callee_names(f.name@, call_sites(f.body->Some_0));
    match callee_total(results, names, base) {
        Some(t) => if t != base { Some(t) } else { None },
        None => None,
    }
}

/// Pass 3: constant-cost functions with a body take on the constant costs of
/// their callees; the updates are computed from `results` and applied in
/// order.
pub open spec fn pass_propagate(
    start: Map<Seq<char>, CostResultView>,
    results: Map<Seq<char>, CostResultView>,
    items: Seq<Item>,
) -> Map<Seq<char>, CostResultView>
    decreases items.len(),
{
    if items.len() == 0 {
        start
    } else {
        let m = pass_propagate(start, results, items.drop_last());
        match items.last() {
            Item::Function(f) => if f.body is Some && results.contains_key(f.name@)
                && results[f.name@] is Constant {
                match propagated(results, f, results[f.name@]->Constant_0) {
                    Some(t) => m.insert(f.name@, CostResultView::Constant(t)),
                    None => m,
                }
            } else {
                m
            },
            _ => m,
        }
    }
}

/// The body cost compared against a declared budget.
pub open spec fn body_vector(f: FnDef, vectors: Map<Seq<char>, CostVector>) -> CostVector {
    if f.body is None {
        spec_constant(1, 0, 0, 0)
    } else {
        expr_cost(vectors, f.body->Some_0)
    }
}

/// Pass 4: the functions with a cost clause (and no `@unbounded`) whose body
/// cost exceeds it, as (name, declared, actual), in order.
pub open spec fn pass_violations(
    vectors: Map<Seq<char>, CostVector>,
    items: Seq<Item>,
) -> Seq<(String, CostVector, CostVector)>
    decreases items.len(),
{
    if items.len() == 0 {
        Seq::empty()
    } else {
        let v = pass_violations(vectors, items.drop_last());
        match items.last() {
            Item::Function(f) => if !f.is_unbounded && f.cost_clause is Some
                && spec_exceeds_budget_vector(
                    body_vector(f, vectors),
                    spec_clause_vector(f.cost_clause->Some_0),
                ) {
                v.push((f.name, spec_clause_vector(f.cost_clause->Some_0), body_vector(f, vectors)))
            } else {
                v
            },
            _ => v,
        }
    }
}

/// Every function body in the module is free of placeholders.
pub open spec fn module_bodies_ok(m: Module) -> bool {
    forall|i: int| 0 <= i < m.items@.len() ==> match #[trigger] m.items@[i] {
        Item::Function(f) => match f.body {
            Some(b) => placeholder_free(b),
            None => true,
        },
        _ => true,
    }
}


impl CostAnalyzer {
    /// Analyze all functions in a module: one-dimensional results, walked
    /// vectors, propagation of callee constants, then budget checks.
    pub fn analyze_module(&mut self, module: &Module)
        requires
            module_bodies_ok(*module),
        ensures
            ({
                let r1 = pass_results(result_views(old(self).result_map()), module.items@);
                let v2 = pass_vectors(old(self).vector_map(), r1, module.items@);
                &&& result_views(final(self).result_map()) == pass_propagate(r1, r1, module.items@)
                &&& final(self).vector_map() == v2
                &&& final(self).violation_seq() == old(self).violation_seq() + pass_violations(
                    v2,
                    module.items@,
                )
            }),
    {
        let ghost items = module.items@;
        // First pass: analyze each function independently (1D CostResult)
        let mut i: usize = 0;
        while i < module.items.len()
            invariant
                i <= module.items.len(),
                items == module.items@,
                result_views(self.result_map()) == pass_results(
                    result_views(old(self).result_map()),
                    items.take(i as int),
                ),
                self.vector_map() == old(self).vector_map(),
                self.violation_seq() == old(self).violation_seq(),
            decreases module.items.len() - i,
        {
            assert(items.take(i + 1).drop_last() =~= items.take(i as int));
            assert(items.take(i + 1).last() == items[i as int]);
            if let Item::Function(fn_def) = &module.items[i] {
                self.analyze_function(fn_def);
            }
            i = i + 1;
        }
        assert(items.take(items.len() as int) =~= items);
        let ghost r1 = result_views(self.result_map());
        // 4D vector pass: walk each function body for per-expression costs
        let mut i: usize = 0;
        while i < module.items.len()
            invariant
                i <= module.items.len(),
                items == module.items@,
                module_bodies_ok(*module),
                result_views(self.result_map()) == r1,
                self.vector_map() == pass_vectors(old(self).vector_map(), r1, items.take(i as int)),
                self.violation_seq() == old(self).violation_seq(),
            decreases module.items.len() - i,
        {
            assert(items.take(i + 1).drop_last() =~= items.take(i as int));
            assert(items.take(i + 1).last() == items[i as int]);
            assert(module.items@[i as int] == module.items[i as int]);
            if let Item::Function(fn_def) = &module.items[i] {
                self.analyze_function_vector(fn_def);
            }
            i = i + 1;
        }
        // Second pass: propagate callee costs into callers
        self.propagate_callee_costs(module);
        // Third pass: check declared budgets against actual costs
        self.check_budgets(module);
    }

    /// Analyze cost for a single function definition.
    pub fn analyze_function(&mut self, fn_def: &FnDef)
        ensures
            result_views(final(self).result_map()) == result_views(old(self).result_map()).insert(
                fn_def.name@,
                fn_result(*fn_def),
            ),
            final(self).vector_map() == old(self).vector_map(),
            final(self).violation_seq() == old(self).violation_seq(),
    {
        let fn_name = &fn_def.name;
        // @unbounded → skip analysis entirely
        if fn_def.is_unbounded {
            self.results.insert(fn_name.clone(), CostResult::Unbounded);
            assert(result_views(self.result_map()) =~= result_views(old(self).result_map()).insert(
                fn_def.name@,
                fn_result(*fn_def),
            ));
            return;
        }
        // If there's a cost clause, record the declared cost for callers,
        // but also analyze the body (budget checking happens later).
        let declared = match &fn_def.cost_clause {
            Some(cc) => Some(ast_cost_to_cost_expr(&cc.compute)),
            None => None,
        };
        let body = match &fn_def.body {
            Some(b) => b,
            None => {
                // Hole body — treat as constant (no code to analyze)
                let result = match declared {
                    Some(d) => CostResult::Declared(d),
                    None => CostResult::Constant(1),
                };
                self.results.insert(fn_name.clone(), result);
                assert(result_views(self.result_map()) =~= result_views(old(self).result_map()).insert(
                    fn_def.name@,
                    fn_result(*fn_def),
                ));
                return;
            },
        };
        let mut params: Vec<String> = Vec::new();
        let mut k: usize = 0;
        while k < fn_def.params.len()
            invariant
                k <= fn_def.params.len(),
                params@ =~= param_names(*fn_def).take(k as int),
            decreases fn_def.params.len() - k,
        {
            params.push(fn_def.params[k].name.clone());
            k = k + 1;
        }
        assert(param_names(*fn_def).take(fn_def.params.len() as int) =~= param_names(*fn_def));
        // Collect recursive calls
        let mut calls: Vec<Vec<CallArg>> = Vec::new();
        collect_recursive_calls(fn_name.as_str(), body, &mut calls);
        assert(arg_views(calls@) =~= recursive_args(fn_name@, call_sites(*body)));
        let body_cost = if calls.len() == 0 {
            // Non-recursive → constant cost
            CostResult::Constant(1)
        } else {
            match detect_structural_recursion(fn_name.as_str(), &params, &calls) {
                Some(decreasing_param) => {
                    proof {
                        let cs = arg_views(calls@);
                        let ps = views(param_names(*fn_def));
                        let i = choose|i: int| #[trigger] picked_param(cs, ps, i) && decreasing_param == params@[i];
                        let j = choose|j: int| #[trigger] picked_param(cs, ps, j);
                        lemma_picked_param_unique(cs, ps, i, j);
                    }
                    CostResult::StructuralRecursion(decreasing_param)
                },
                None => {
                    let mut msg = string_of("cannot determine cost for recursive function `");
                    msg.append(fn_name.as_str());
                    msg.append("`");
                    CostResult::Unknown(msg)
                },
            }
        };
        // Store the declared cost (if any) or the analyzed body cost
        match declared {
            Some(d) => self.results.insert(fn_name.clone(), CostResult::Declared(d)),
            None => self.results.insert(fn_name.clone(), body_cost),
        }
        assert(result_views(self.result_map()) =~= result_views(old(self).result_map()).insert(
            fn_def.name@,
            fn_result(*fn_def),
        ));
    }

    /// Compute the four-dimensional [`CostVector`] for a single function.
    fn analyze_function_vector(&mut self, fn_def: &FnDef)
        requires
            match fn_def.body {
                Some(b) => placeholder_free(b),
                None => true,
            },
        ensures
            final(self).vector_map() == old(self).vector_map().insert(
                fn_def.name@,
                fn_vector(*fn_def, old(self).vector_map(), result_views(old(self).result_map())),
            ),
            final(self).result_map() == old(self).result_map(),
            final(self).violation_seq() == old(self).violation_seq(),
    {
        let fn_name = &fn_def.name;
        if fn_def.is_unbounded {
            self.cost_vectors.insert(
                fn_name.clone(),
                CostVector {
                    compute: CostExpr::Unbounded,
                    alloc: CostExpr::Unbounded,
                    io: CostExpr::Unbounded,
                    parallel: CostExpr::Unbounded,
                },
            );
            return;
        }
        let body = match &fn_def.body {
            Some(b) => b,
            None => {
                self.cost_vectors.insert(fn_name.clone(), CostVector::zero());
                return;
            },
        };
        let base_cv = self.analyze_expr_cost(body);
        // If the 1D analysis found structural recursion, scale the body cost.
        let cv = match self.results.get(fn_name.as_str()) {
            Some(CostResult::StructuralRecursion(param)) => base_cv.scale(&CostExpr::Linear(param.clone())),
            _ => base_cv,
        };
        self.cost_vectors.insert(fn_name.clone(), cv);
    }

    /// Propagate callee costs into caller functions.
    ///
    /// For each non-recursive constant-cost function, walk its body to find
    /// all function call sites and sum callee costs.
    fn propagate_callee_costs(&mut self, module: &Module)
        ensures
            result_views(final(self).result_map()) == pass_propagate(
                result_views(old(self).result_map()),
                result_views(old(self).result_map()),
                module.items@,
            ),
            final(self).vector_map() == old(self).vector_map(),
            final(self).violation_seq() == old(self).violation_seq(),
    {
        let ghost r0 = result_views(self.result_map());
        let ghost items = module.items@;
        let mut updates: Vec<(String, u64)> = Vec::new();
        let mut i: usize = 0;
        while i < module.items.len()
            invariant
                i <= module.items.len(),
                items == module.items@,
                r0 == result_views(self.result_map()),
                self.result_map() == old(self).result_map(),
                apply_updates(r0, updates@) == pass_propagate(r0, r0, items.take(i as int)),
            decreases module.items.len() - i,
        {
            assert(items.take(i + 1).drop_last() =~= items.take(i as int));
            assert(items.take(i + 1).last() == items[i as int]);
            if let Item::Function(fn_def) = &module.items[i] {
                if let Some(body) = &fn_def.body {
                    let fn_name = &fn_def.name;
                    if let Some(CostResult::Constant(k)) = self.results.get(fn_name.as_str()) {
                        let base_cost = *k;
                        let callee_names = collect_callee_names(fn_name.as_str(), body);
                        if callee_names.len() > 0 {
                            let mut total = base_cost;
                            let mut upgraded = false;
                            let mut j: usize = 0;
                            while j < callee_names.len()
                                invariant
                                    j <= callee_names.len(),
                                    r0 == result_views(self.result_map()),
                                    callee_total(r0, views(callee_names@).take(j as int), base_cost)
                                        == if upgraded { None } else { Some(total) },
                                decreases callee_names.len() - j,
                            {
                                let callee = &callee_names[j];
                                assert(views(callee_names@).take(j + 1).drop_last() =~= views(callee_names@).take(j as int));
                                assert(views(callee_names@).take(j + 1).last() == callee@);
                                if !upgraded {
                                    match self.results.get(callee.as_str()) {
                                        Some(CostResult::Constant(k)) => {
                                            total = if total > u64::MAX - *k { u64::MAX } else { total + *k };
                                        },
                                        Some(CostResult::Declared(expr)) => match expr {
                                            CostExpr::Const(k) => {
                                                total = if total > u64::MAX - *k { u64::MAX } else { total + *k };
                                            },
                                            _ => {
                                                upgraded = true;
                                            },
                                        },
                                        Some(_) => {
                                            upgraded = true;
                                        },
                                        None => {},  // unknown function (built-in, etc.) — ignore
                                    }
                                }
                                j = j + 1;
                            }
                            assert(views(callee_names@).take(callee_names.len() as int) =~= views(callee_names@));
                            if !upgraded && total != base_cost {
                                let ghost before = updates@;
                                updates.push((fn_name.clone(), total));
                                proof { lemma_apply_updates_push(r0, before, fn_name@, total); }
                            }
                        } else {
                            assert(views(callee_names@) =~= Seq::<Seq<char>>::empty());
                        }
                    }
                }
            }
            i = i + 1;
        }
        assert(items.take(items.len() as int) =~= items);
        let mut u: usize = 0;
        while u < updates.len()
            invariant
                u <= updates.len(),
                result_views(self.result_map()) == apply_updates(r0, updates@.take(u as int)),
                self.vector_map() == old(self).vector_map(),
                self.violation_seq() == old(self).violation_seq(),
            decreases updates.len() - u,
        {
            let (name, total) = &updates[u];
            let ghost before = self.result_map();
            self.results.insert(name.clone(), CostResult::Constant(*total));
            assert(updates@.take(u + 1).drop_last() =~= updates@.take(u as int));
            assert(result_views(self.result_map()) =~= result_views(before).insert(name@, CostResultView::Constant(*total)));
            u = u + 1;
        }
        assert(updates@.take(updates.len() as int) =~= updates@);
    }

    /// Check declared cost budgets against actual/propagated costs.
    fn check_budgets(&mut self, module: &Module)
        requires
            module_bodies_ok(*module),
        ensures
            final(self).violation_seq() == old(self).violation_seq() + pass_violations(
                old(self).vector_map(),
                module.items@,
            ),
            final(self).result_map() == old(self).result_map(),
            final(self).vector_map() == old(self).vector_map(),
    {
        let ghost items = module.items@;
        let mut i: usize = 0;
        while i < module.items.len()
            invariant
                i <= module.items.len(),
                items == module.items@,
                module_bodies_ok(*module),
                self.violation_seq() == old(self).violation_seq() + pass_violations(
                    old(self).vector_map(),
                    items.take(i as int),
                ),
                self.result_map() == old(self).result_map(),
                self.vector_map() == old(self).vector_map(),
            decreases module.items.len() - i,
        {
            assert(items.take(i + 1).drop_last() =~= items.take(i as int));
            assert(items.take(i + 1).last() == items[i as int]);
            assert(module.items@[i as int] == module.items[i as int]);
            if let Item::Function(fn_def) = &module.items[i] {
                if !fn_def.is_unbounded {
                    if let Some(cost_clause) = &fn_def.cost_clause {
                        let fn_name = &fn_def.name;
                        let declared = ast_cost_clause_to_cost_vector(cost_clause);
                        let actual = self.compute_body_cost_vector(fn_def);
                        if exceeds_budget_vector(&actual, &declared) {
                            self.violations.push((fn_name.clone(), declared, actual));
                        }
                    }
                }
            }
            assert(self.violation_seq() =~= old(self).violation_seq() + pass_violations(
                old(self).vector_map(),
                items.take(i + 1),
            ));
            i = i + 1;
        }
        assert(items.take(items.len() as int) =~= items);
    }

    /// Compute the actual 4D body cost for budget comparison.
    fn compute_body_cost_vector(&self, fn_def: &FnDef) -> (r: CostVector)
        requires
            match fn_def.body {
                Some(b) => placeholder_free(b),
                None => true,
            },
        ensures
            r == body_vector(*fn_def, self.vector_map()),
    {
        match &fn_def.body {
            None => CostVector::constant(1, 0, 0, 0),
            Some(body) => self.analyze_expr_cost(body),
        }
    }
}

/// Applies propagated constants in order.
pub open spec fn apply_updates(
    m: Map<Seq<char>, CostResultView>,
    ups: Seq<(String, u64)>,
) -> Map<Seq<char>, CostResultView>
    decreases ups.len(),
{
    if ups.len() == 0 {
        m
    } else {
        apply_updates(m, ups.drop_last()).insert(ups.last().0@, CostResultView::Constant(ups.last().1))
    }
}

proof fn lemma_apply_updates_push(
    m: Map<Seq<char>, CostResultView>,
    ups: Seq<(String, u64)>,
    name: Seq<char>,
    t: u64,
)
    ensures
        forall|s: String| s@ == name ==> #[trigger] apply_updates(m, ups.push((s, t)))
            == apply_updates(m, ups).insert(name, CostResultView::Constant(t)),
{
    assert forall|s: String| s@ == name implies #[trigger] apply_updates(m, ups.push((s, t)))
        == apply_updates(m, ups).insert(name, CostResultView::Constant(t)) by {
        assert(ups.push((s, t)).drop_last() =~= ups);
    }
}

} // verus!
