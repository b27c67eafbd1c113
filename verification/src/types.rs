//! Internal type representation for Spore's type checker: resolved and
//! normalized types, separate from the written type expressions.

use vstd::prelude::*;
use std::rc::Rc;
use crate::ast::{Expr, share_predicate};
use crate::effect_set::{EffectSet, join_names};
use crate::text::{decimal, push_decimal, str_eq};
use crate::names::views;
use crate::ast_eq::{expr_same, expr_eq, lemma_expr_same_refl};
use crate::{synthetic_hole_name, is_synthetic_hole_name};

verus! {

/// The internal type representation used during type checking.
#[derive(Debug, PartialEq, Eq)]
pub enum Ty {
    /// Primitive integer types
    I8,
    I16,
    I32,
    I64,
    U8,
    U16,
    U32,
    U64,
    F32,
    F64,
    Bool,
    Str,
    /// Unit type (empty tuple / void)
    Unit,
    /// Bottom type — subtype of all types
    Never,
    /// Named type (structs, type aliases, type params)
    Named(String),
    /// Generic type application: `List[I64]`
    App(String, Vec<Ty>),
    /// Tuple: `(I64, Str)`
    Tuple(Vec<Ty>),
    /// Function type: `(params) -> return [uses caps]`
    Fn(Vec<Ty>, Box<Ty>, EffectSet),
    /// First-class outcome type: `success ! failure`.
    Outcome(Box<Ty>, Box<Ty>),
    /// Type variable
    Var(u32),
    /// The type of a hole — we know the expected type but it's unfilled
    Hole(String),
    /// Anonymous record type: `{ x: I64, y: I64 }`
    Record(Vec<(String, Ty)>),
    /// Refinement type: base type, bound variable and decidable predicate.
    Refined(Box<Ty>, String, Rc<Expr>),
    /// Error sentinel — allows type checking to continue after errors
    Error,
}

/// The eight integer types.
pub open spec fn is_integer_ty(t: Ty) -> bool {
    t is I8 || t is I16 || t is I32 || t is I64 || t is U8 || t is U16 || t is U32 || t is U64
}

/// The integer types and the two float types.
pub open spec fn is_numeric_ty(t: Ty) -> bool {
    is_integer_ty(t) || t is F32 || t is F64
}

/// The type with every outer refinement stripped.
pub open spec fn base_of(t: Ty) -> Ty
    decreases t,
{
    match t {
        Ty::Refined(base, _, _) => base_of(*base),
        _ => t,
    }
}

/// How a type is written.
pub open spec fn ty_text(t: Ty) -> Seq<char>
    decreases t,
{
    match t {
        Ty::I8 => "I8"@,
        Ty::I16 => "I16"@,
        Ty::I32 => "I32"@,
        Ty::I64 => "I64"@,
        Ty::U8 => "U8"@,
        Ty::U16 => "U16"@,
        Ty::U32 => "U32"@,
        Ty::U64 => "U64"@,
        Ty::F32 => "F32"@,
        Ty::F64 => "F64"@,
        Ty::Bool => "Bool"@,
        Ty::Str => "Str"@,
        Ty::Unit => "()"@,
        Ty::Never => "Never"@,
        Ty::Named(n) => n@,
        Ty::App(name, args) => name@ + "["@ + tys_text(args@) + "]"@,
        Ty::Tuple(ts) => "("@ + tys_text(ts@) + ")"@,
        Ty::Fn(params, ret, caps) => "("@ + tys_text(params@) + ") -> "@ + ty_text(*ret) + (if caps@
            == Set::<Seq<char>>::empty() {
            Seq::empty()
        } else {
            " uses "@ + seq!['['] + join_names(caps.elems()) + seq![']']
        }),
        Ty::Outcome(success, failure) => ty_text(*success) + " ! "@ + ty_text(*failure),
        Ty::Var(id) => "?T"@ + decimal(id as nat),
        Ty::Hole(name) => if synthetic_hole_name(name@) {
            "?"@
        } else {
            "?"@ + name@
        },
        Ty::Record(fields) => "{ "@ + fields_text(fields@) + " }"@,
        Ty::Refined(base, _, _) => ty_text(*base) + " when <predicate>"@,
        Ty::Error => "<error>"@,
    }
}

/// `", "`-separated types.
pub open spec fn tys_text(s: Seq<Ty>) -> Seq<char>
    decreases s,
{
    if s.len() == 0 {
        Seq::empty()
    } else if s.len() == 1 {
        ty_text(s[0])
    } else {
        tys_text(s.drop_last()) + ", "@ + ty_text(s.last())
    }
}

/// `", "`-separated `name: type` fields.
pub open spec fn fields_text(s: Seq<(String, Ty)>) -> Seq<char>
    decreases s,
{
    if s.len() == 0 {
        Seq::empty()
    } else if s.len() == 1 {
        s[0].0@ + ": "@ + ty_text(s[0].1)
    } else {
        fields_text(s.drop_last()) + ", "@ + s.last().0@ + ": "@ + ty_text(s.last().1)
    }
}

/// A type as a mathematical value: `Ty` with its lists as sequences, names
/// as character sequences, effect sets as their increasing member lists,
/// and the refinement predicate as the expression itself.
pub enum TyV {
    I8,
    I16,
    I32,
    I64,
    U8,
    U16,
    U32,
    U64,
    F32,
    F64,
    Bool,
    Str,
    Unit,
    Never,
    Named(Seq<char>),
    App(Seq<char>, Seq<TyV>),
    Tuple(Seq<TyV>),
    Fn(Seq<TyV>, Box<TyV>, Seq<Seq<char>>),
    Outcome(Box<TyV>, Box<TyV>),
    Var(u32),
    Hole(Seq<char>),
    Record(Seq<(Seq<char>, TyV)>),
    Refined(Box<TyV>, Seq<char>, Expr),
    Error,
}

/// The mathematical value of a type. Two types are equal in the sense of
/// `==` on `Ty` exactly when their values are equal.
pub open spec fn ty_view(t: Ty) -> TyV
    decreases t,
{
    match t {
        Ty::I8 => TyV::I8,
        Ty::I16 => TyV::I16,
        Ty::I32 => TyV::I32,
        Ty::I64 => TyV::I64,
        Ty::U8 => TyV::U8,
        Ty::U16 => TyV::U16,
        Ty::U32 => TyV::U32,
        Ty::U64 => TyV::U64,
        Ty::F32 => TyV::F32,
        Ty::F64 => TyV::F64,
        Ty::Bool => TyV::Bool,
        Ty::Str => TyV::Str,
        Ty::Unit => TyV::Unit,
        Ty::Never => TyV::Never,
        Ty::Named(n) => TyV::Named(n@),
        Ty::App(n, args) => TyV::App(n@, tys_view(args@)),
        Ty::Tuple(ts) => TyV::Tuple(tys_view(ts@)),
        Ty::Fn(ps, r, c) => TyV::Fn(tys_view(ps@), Box::new(ty_view(*r)), c.elems()),
        Ty::Outcome(a, b) => TyV::Outcome(Box::new(ty_view(*a)), Box::new(ty_view(*b))),
        Ty::Var(id) => TyV::Var(id),
        Ty::Hole(n) => TyV::Hole(n@),
        Ty::Record(fs) => TyV::Record(fields_view(fs@)),
        Ty::Refined(b, v, p) => TyV::Refined(Box::new(ty_view(*b)), v@, *p),
        Ty::Error => TyV::Error,
    }
}

pub open spec fn tys_view(s: Seq<Ty>) -> Seq<TyV>
    decreases s,
{
    if s.len() == 0 {
        Seq::empty()
    } else {
        tys_view(s.drop_last()).push(ty_view(s.last()))
    }
}

pub open spec fn fields_view(s: Seq<(String, Ty)>) -> Seq<(Seq<char>, TyV)>
    decreases s,
{
    if s.len() == 0 {
        Seq::empty()
    } else {
        fields_view(s.drop_last()).push((s.last().0@, ty_view(s.last().1)))
    }
}

/// The values of a list of types, element by element.
pub proof fn lemma_tys_view(s: Seq<Ty>)
    ensures
        tys_view(s).len() == s.len(),
        forall|i: int| 0 <= i < s.len() ==> #[trigger] tys_view(s)[i] == ty_view(s[i]),
    decreases s.len(),
{
    if s.len() > 0 {
        lemma_tys_view(s.drop_last());
    }
}

/// The values of a list of record fields, element by element.
pub proof fn lemma_fields_view(s: Seq<(String, Ty)>)
    ensures
        fields_view(s).len() == s.len(),
        forall|i: int|
            0 <= i < s.len() ==> #[trigger] fields_view(s)[i] == (s[i].0@, ty_view(s[i].1)),
    decreases s.len(),
{
    if s.len() > 0 {
        lemma_fields_view(s.drop_last());
    }
}

/// A copy of a type, with the same value.
pub fn clone_ty(t: &Ty) -> (r: Ty)
    ensures
        ty_view(r) == ty_view(*t),
    decreases t,
{
    match t {
        Ty::I8 => Ty::I8,
        Ty::I16 => Ty::I16,
        Ty::I32 => Ty::I32,
        Ty::I64 => Ty::I64,
        Ty::U8 => Ty::U8,
        Ty::U16 => Ty::U16,
        Ty::U32 => Ty::U32,
        Ty::U64 => Ty::U64,
        Ty::F32 => Ty::F32,
        Ty::F64 => Ty::F64,
        Ty::Bool => Ty::Bool,
        Ty::Str => Ty::Str,
        Ty::Unit => Ty::Unit,
        Ty::Never => Ty::Never,
        Ty::Named(n) => Ty::Named(n.clone()),
        Ty::App(n, args) => Ty::App(n.clone(), clone_tys(args)),
        Ty::Tuple(ts) => Ty::Tuple(clone_tys(ts)),
        Ty::Fn(ps, r, c) => Ty::Fn(clone_tys(ps), Box::new(clone_ty(r)), c.clone()),
        Ty::Outcome(a, b) => Ty::Outcome(Box::new(clone_ty(a)), Box::new(clone_ty(b))),
        Ty::Var(id) => Ty::Var(*id),
        Ty::Hole(n) => Ty::Hole(n.clone()),
        Ty::Record(fs) => Ty::Record(clone_fields(fs)),
        Ty::Refined(b, v, p) => Ty::Refined(Box::new(clone_ty(b)), v.clone(), share_predicate(p)),
        Ty::Error => Ty::Error,
    }
}

/// Copies of a list of types.
pub fn clone_tys(ts: &Vec<Ty>) -> (r: Vec<Ty>)
    ensures
        tys_view(r@) == tys_view(ts@),
    decreases ts@,
{
    let mut out: Vec<Ty> = Vec::new();
    let mut i: usize = 0;
    assert(ts@.take(0) =~= Seq::<Ty>::empty());
    assert(out@ =~= Seq::<Ty>::empty());
    while i < ts.len()
        invariant
            i <= ts@.len(),
            tys_view(out@) == tys_view(ts@.take(i as int)),
        decreases ts.len() - i,
    {
        let c = clone_ty(&ts[i]);
        let ghost prev = out@;
        out.push(c);
        assert(out@.drop_last() =~= prev);
        assert(ts@.take(i + 1).drop_last() =~= ts@.take(i as int));
        i = i + 1;
    }
    assert(ts@.take(ts.len() as int) =~= ts@);
    out
}

/// Copies of a list of record fields.
pub fn clone_fields(fs: &Vec<(String, Ty)>) -> (r: Vec<(String, Ty)>)
    ensures
        fields_view(r@) == fields_view(fs@),
    decreases fs@,
{
    let mut out: Vec<(String, Ty)> = Vec::new();
    let mut i: usize = 0;
    assert(fs@.take(0) =~= Seq::<(String, Ty)>::empty());
    assert(out@ =~= Seq::<(String, Ty)>::empty());
    while i < fs.len()
        invariant
            i <= fs@.len(),
            fields_view(out@) == fields_view(fs@.take(i as int)),
        decreases fs.len() - i,
    {
        let f = &fs[i];
        proof {
            assert(decreases_to!(fs@ => fs@[i as int].1));
        }
        let c = clone_ty(&f.1);
        let ghost prev = out@;
        out.push((f.0.clone(), c));
        assert(out@.drop_last() =~= prev);
        assert(fs@.take(i + 1).drop_last() =~= fs@.take(i as int));
        i = i + 1;
    }
    assert(fs@.take(fs.len() as int) =~= fs@);
    out
}

/// Two type values are equal as `==` on `Ty` compares them: node by node,
/// refinement predicates included.
pub open spec fn ty_same(a: TyV, b: TyV) -> bool
    decreases a,
{
    match (a, b) {
        (TyV::App(n, xs), TyV::App(m, ys)) => n == m && tys_same(xs, ys),
        (TyV::Tuple(xs), TyV::Tuple(ys)) => tys_same(xs, ys),
        (TyV::Fn(ps, r, c), TyV::Fn(qs, s, d)) => tys_same(ps, qs) && ty_same(*r, *s) && c == d,
        (TyV::Outcome(a1, b1), TyV::Outcome(a2, b2)) => ty_same(*a1, *a2) && ty_same(*b1, *b2),
        (TyV::Record(xs), TyV::Record(ys)) => xs.len() == ys.len() && forall|i: int|
            0 <= i < xs.len() ==> (#[trigger] xs[i]).0 == ys[i].0 && ty_same(xs[i].1, ys[i].1),
        (TyV::Refined(b1, v1, p1), TyV::Refined(b2, v2, p2)) => ty_same(*b1, *b2) && v1 == v2
            && expr_same(p1, p2),
        _ => a == b,
    }
}

pub open spec fn tys_same(xs: Seq<TyV>, ys: Seq<TyV>) -> bool
    decreases xs,
{
    xs.len() == ys.len() && forall|i: int| 0 <= i < xs.len() ==> ty_same(#[trigger] xs[i], ys[i])
}

/// Every type value equals itself.
pub proof fn lemma_ty_same_refl(t: TyV)
    ensures
        ty_same(t, t),
    decreases t,
{
    match t {
        TyV::App(_, xs) => {
            assert forall|i: int| 0 <= i < xs.len() implies ty_same(#[trigger] xs[i], xs[i]) by {
                lemma_ty_same_refl(xs[i]);
            }
            assert(tys_same(xs, xs));
            assert(ty_same(t, t));
        },
        TyV::Tuple(xs) => {
            assert forall|i: int| 0 <= i < xs.len() implies ty_same(#[trigger] xs[i], xs[i]) by {
                lemma_ty_same_refl(xs[i]);
            }
            assert(tys_same(xs, xs));
            assert(ty_same(t, t));
        },
        TyV::Fn(ps, r, _) => {
            assert forall|i: int| 0 <= i < ps.len() implies ty_same(#[trigger] ps[i], ps[i]) by {
                lemma_ty_same_refl(ps[i]);
            }
            assert(tys_same(ps, ps));
            lemma_ty_same_refl(*r);
            assert(ty_same(t, t));
        },
        TyV::Outcome(a, b) => {
            lemma_ty_same_refl(*a);
            lemma_ty_same_refl(*b);
            assert(ty_same(t, t));
        },
        TyV::Record(fs) => {
            assert forall|i: int| 0 <= i < fs.len() implies ty_same(fs[i].1, fs[i].1) by {
                lemma_ty_same_refl(fs[i].1);
            }
            assert(ty_same(t, t));
        },
        TyV::Refined(b, _, p) => {
            lemma_ty_same_refl(*b);
            lemma_expr_same_refl(p);
            assert(ty_same(t, t));
        },
        _ => {},
    }
}

/// How a type value is written (as `ty_text` writes the type).
pub open spec fn tyv_text(t: TyV) -> Seq<char>
    decreases t,
{
    match t {
        TyV::I8 => "I8"@,
        TyV::I16 => "I16"@,
        TyV::I32 => "I32"@,
        TyV::I64 => "I64"@,
        TyV::U8 => "U8"@,
        TyV::U16 => "U16"@,
        TyV::U32 => "U32"@,
        TyV::U64 => "U64"@,
        TyV::F32 => "F32"@,
        TyV::F64 => "F64"@,
        TyV::Bool => "Bool"@,
        TyV::Str => "Str"@,
        TyV::Unit => "()"@,
        TyV::Never => "Never"@,
        TyV::Named(n) => n,
        TyV::App(name, args) => name + "["@ + tyvs_text(args) + "]"@,
        TyV::Tuple(ts) => "("@ + tyvs_text(ts) + ")"@,
        TyV::Fn(params, ret, caps) => "("@ + tyvs_text(params) + ") -> "@ + tyv_text(*ret) + (if caps.len()
            == 0 {
            Seq::empty()
        } else {
            " uses "@ + seq!['['] + join_names(caps) + seq![']']
        }),
        TyV::Outcome(success, failure) => tyv_text(*success) + " ! "@ + tyv_text(*failure),
        TyV::Var(id) => "?T"@ + decimal(id as nat),
        TyV::Hole(name) => if synthetic_hole_name(name) {
            "?"@
        } else {
            "?"@ + name
        },
        TyV::Record(fields) => "{ "@ + tyv_fields_text(fields) + " }"@,
        TyV::Refined(base, _, _) => tyv_text(*base) + " when <predicate>"@,
        TyV::Error => "<error>"@,
    }
}

pub open spec fn tyvs_text(s: Seq<TyV>) -> Seq<char>
    decreases s,
{
    if s.len() == 0 {
        Seq::empty()
    } else if s.len() == 1 {
        tyv_text(s[0])
    } else {
        tyvs_text(s.drop_last()) + ", "@ + tyv_text(s.last())
    }
}

pub open spec fn tyv_fields_text(s: Seq<(Seq<char>, TyV)>) -> Seq<char>
    decreases s,
{
    if s.len() == 0 {
        Seq::empty()
    } else if s.len() == 1 {
        s[0].0 + ": "@ + tyv_text(s[0].1)
    } else {
        tyv_fields_text(s.drop_last()) + ", "@ + s.last().0 + ": "@ + tyv_text(s.last().1)
    }
}

/// A type and its value are written alike.
pub proof fn lemma_text_view(t: Ty)
    ensures
        ty_text(t) == tyv_text(ty_view(t)),
    decreases t,
{
    match t {
        Ty::App(_, args) => lemma_tys_text_view(args@),
        Ty::Tuple(ts) => lemma_tys_text_view(ts@),
        Ty::Fn(ps, r, c) => {
            lemma_tys_text_view(ps@);
            lemma_text_view(*r);
            if c.elems().len() > 0 {
                assert(c@.contains(c.elems()[0]));
            } else {
                assert(c@ =~= Set::<Seq<char>>::empty());
            }
        },
        Ty::Outcome(a, b) => {
            lemma_text_view(*a);
            lemma_text_view(*b);
        },
        Ty::Record(fs) => lemma_fields_text_view(fs@),
        Ty::Refined(b, _, _) => lemma_text_view(*b),
        _ => {},
    }
}

pub proof fn lemma_tys_text_view(s: Seq<Ty>)
    ensures
        tys_text(s) == tyvs_text(tys_view(s)),
    decreases s,
{
    lemma_tys_view(s);
    if s.len() == 1 {
        lemma_text_view(s[0]);
    } else if s.len() > 1 {
        lemma_tys_text_view(s.drop_last());
        lemma_text_view(s.last());
        lemma_tys_view(s.drop_last());
        assert(tys_view(s).drop_last() =~= tys_view(s.drop_last()));
    }
}

pub proof fn lemma_fields_text_view(s: Seq<(String, Ty)>)
    ensures
        fields_text(s) == tyv_fields_text(fields_view(s)),
    decreases s,
{
    lemma_fields_view(s);
    if s.len() == 1 {
        lemma_text_view(s[0].1);
    } else if s.len() > 1 {
        lemma_fields_text_view(s.drop_last());
        lemma_text_view(s.last().1);
        lemma_fields_view(s.drop_last());
        assert(fields_view(s).drop_last() =~= fields_view(s.drop_last()));
    }
}

/// Whether two types are equal, node by node.
pub fn ty_eq(a: &Ty, b: &Ty) -> (r: bool)
    ensures
        r == ty_same(ty_view(*a), ty_view(*b)),
    decreases a,
{
    match (a, b) {
        (Ty::I8, Ty::I8) | (Ty::I16, Ty::I16) | (Ty::I32, Ty::I32) | (Ty::I64, Ty::I64)
        | (Ty::U8, Ty::U8) | (Ty::U16, Ty::U16) | (Ty::U32, Ty::U32) | (Ty::U64, Ty::U64)
        | (Ty::F32, Ty::F32) | (Ty::F64, Ty::F64) | (Ty::Bool, Ty::Bool) | (Ty::Str, Ty::Str)
        | (Ty::Unit, Ty::Unit) | (Ty::Never, Ty::Never) | (Ty::Error, Ty::Error) => true,
        (Ty::Named(x), Ty::Named(y)) => str_eq(x.as_str(), y.as_str()),
        (Ty::App(n, xs), Ty::App(m, ys)) => str_eq(n.as_str(), m.as_str()) && tys_eq(
            xs.as_slice(),
            ys.as_slice(),
        ),
        (Ty::Tuple(xs), Ty::Tuple(ys)) => tys_eq(xs.as_slice(), ys.as_slice()),
        (Ty::Fn(ps, r, c), Ty::Fn(qs, s, d)) => tys_eq(ps.as_slice(), qs.as_slice()) && ty_eq(r, s)
            && names_eq(c.iter(), d.iter()),
        (Ty::Outcome(a1, b1), Ty::Outcome(a2, b2)) => ty_eq(a1, a2) && ty_eq(b1, b2),
        (Ty::Var(x), Ty::Var(y)) => *x == *y,
        (Ty::Hole(x), Ty::Hole(y)) => str_eq(x.as_str(), y.as_str()),
        (Ty::Record(xs), Ty::Record(ys)) => {
            proof {
                lemma_fields_view(xs@);
                lemma_fields_view(ys@);
            }
            if xs.len() != ys.len() {
                return false;
            }
            let mut i: usize = 0;
            #[verifier::loop_isolation(false)]
            while i < xs.len()
                invariant
                    i <= xs@.len(),
                    xs@.len() == ys@.len(),
                    forall|k: int|
                        0 <= k < i ==> (#[trigger] fields_view(xs@)[k]).0 == fields_view(ys@)[k].0
                            && ty_same(fields_view(xs@)[k].1, fields_view(ys@)[k].1),
                decreases xs.len() - i,
            {
                proof {
                    assert(decreases_to!(*a => xs@[i as int].1));
                }
                if !str_eq(xs[i].0.as_str(), ys[i].0.as_str()) || !ty_eq(&xs[i].1, &ys[i].1) {
                    assert(!((fields_view(xs@)[i as int]).0 == fields_view(ys@)[i as int].0
                        && ty_same(fields_view(xs@)[i as int].1, fields_view(ys@)[i as int].1)));
                    return false;
                }
                i = i + 1;
            }
            true
        },
        (Ty::Refined(b1, v1, p1), Ty::Refined(b2, v2, p2)) => ty_eq(b1, b2) && str_eq(
            v1.as_str(),
            v2.as_str(),
        ) && expr_eq(&**p1, &**p2),
        _ => false,
    }
}

pub(crate) fn tys_eq(xs: &[Ty], ys: &[Ty]) -> (r: bool)
    ensures
        r == tys_same(tys_view(xs@), tys_view(ys@)),
    decreases xs@,
{
    proof {
        lemma_tys_view(xs@);
        lemma_tys_view(ys@);
    }
    if xs.len() != ys.len() {
        return false;
    }
    let mut i: usize = 0;
    while i < xs.len()
        invariant
            i <= xs@.len(),
            xs@.len() == ys@.len(),
            tys_view(xs@).len() == xs@.len(),
            tys_view(ys@).len() == ys@.len(),
            forall|k: int| 0 <= k < xs@.len() ==> #[trigger] tys_view(xs@)[k] == ty_view(xs@[k]),
            forall|k: int| 0 <= k < ys@.len() ==> #[trigger] tys_view(ys@)[k] == ty_view(ys@[k]),
            forall|k: int| 0 <= k < i ==> ty_same(#[trigger] tys_view(xs@)[k], tys_view(ys@)[k]),
        decreases xs.len() - i,
    {
        if !ty_eq(&xs[i], &ys[i]) {
            assert(!ty_same(tys_view(xs@)[i as int], tys_view(ys@)[i as int]));
            return false;
        }
        i = i + 1;
    }
    true
}

/// Whether two lists of names are equal.
pub(crate) fn names_eq(xs: &[String], ys: &[String]) -> (r: bool)
    ensures
        r == (views(xs@) == views(ys@)),
{
    if xs.len() != ys.len() {
        assert(views(xs@).len() != views(ys@).len());
        return false;
    }
    let mut i: usize = 0;
    while i < xs.len()
        invariant
            i <= xs@.len(),
            xs@.len() == ys@.len(),
            forall|k: int| 0 <= k < i ==> #[trigger] xs@[k]@ == ys@[k]@,
        decreases xs.len() - i,
    {
        if !str_eq(xs[i].as_str(), ys[i].as_str()) {
            assert(views(xs@)[i as int] != views(ys@)[i as int]);
            return false;
        }
        i = i + 1;
    }
    assert(views(xs@) =~= views(ys@));
    true
}

impl Ty {
    /// Check if this type is an integer type.
    pub fn is_integer(&self) -> (b: bool)
        ensures
            b == is_integer_ty(*self),
    {
        match self {
            Ty::I8 | Ty::I16 | Ty::I32 | Ty::I64 | Ty::U8 | Ty::U16 | Ty::U32 | Ty::U64 => true,
            _ => false,
        }
    }

    /// Check if this type is numeric (any integer, F32, or F64).
    pub fn is_numeric(&self) -> (b: bool)
        ensures
            b == is_numeric_ty(*self),
    {
        self.is_integer() || matches!(self, Ty::F32 | Ty::F64)
    }

    /// Check if this type is the error sentinel.
    pub fn is_error(&self) -> (b: bool)
        ensures
            b == (*self is Error),
    {
        matches!(self, Ty::Error)
    }

    /// Extract the base type, stripping refinements if present.
    pub fn base_type(&self) -> (r: &Ty)
        ensures
            *r == base_of(*self),
        decreases self,
    {
        match self {
            Ty::Refined(base, _, _) => base.base_type(),
            other => other,
        }
    }

    /// Appends how this type is written.
    #[verifier::loop_isolation(false)]
    fn render_into(&self, out: &mut String)
        ensures
            final(out)@ == old(out)@ + ty_text(*self),
        decreases self,
    {
        match self {
            Ty::I8 => out.append("I8"),
            Ty::I16 => out.append("I16"),
            Ty::I32 => out.append("I32"),
            Ty::I64 => out.append("I64"),
            Ty::U8 => out.append("U8"),
            Ty::U16 => out.append("U16"),
            Ty::U32 => out.append("U32"),
            Ty::U64 => out.append("U64"),
            Ty::F32 => out.append("F32"),
            Ty::F64 => out.append("F64"),
            Ty::Bool => out.append("Bool"),
            Ty::Str => out.append("Str"),
            Ty::Unit => out.append("()"),
            Ty::Never => out.append("Never"),
            Ty::Named(n) => out.append(n.as_str()),
            Ty::App(name, args) => {
                out.append(name.as_str());
                out.append("[");
                Self::render_list(args, out);
                out.append("]");
                assert(out@ =~= old(out)@ + ty_text(*self));
            },
            Ty::Tuple(ts) => {
                out.append("(");
                Self::render_list(ts, out);
                out.append(")");
                assert(out@ =~= old(out)@ + ty_text(*self));
            },
            Ty::Fn(params, ret, caps) => {
                out.append("(");
                Self::render_list(params, out);
                out.append(") -> ");
                ret.render_into(out);
                if !caps.is_empty() {
                    out.append(" uses ");
                    let list = caps.to_string();
                    out.append(list.as_str());
                }
                assert(out@ =~= old(out)@ + ty_text(*self));
            },
            Ty::Outcome(success, failure) => {
                success.render_into(out);
                out.append(" ! ");
                failure.render_into(out);
                assert(out@ =~= old(out)@ + ty_text(*self));
            },
            Ty::Var(id) => {
                out.append("?T");
                push_decimal(out, *id as u64);
                assert(out@ =~= old(out)@ + ty_text(*self));
            },
            Ty::Hole(name) => {
                if is_synthetic_hole_name(name.as_str()) {
                    out.append("?");
                } else {
                    out.append("?");
                    out.append(name.as_str());
                    assert(out@ =~= old(out)@ + ty_text(*self));
                }
            },
            Ty::Record(fields) => {
                out.append("{ ");
                Self::render_fields(fields, out);
                out.append(" }");
                assert(out@ =~= old(out)@ + ty_text(*self));
            },
            Ty::Refined(base, _, _) => {
                base.render_into(out);
                out.append(" when <predicate>");
                assert(out@ =~= old(out)@ + ty_text(*self));
            },
            Ty::Error => out.append("<error>"),
        }
    }

    /// Appends the types, `", "`-separated.
    #[verifier::loop_isolation(false)]
    fn render_list(ts: &Vec<Ty>, out: &mut String)
        ensures
            final(out)@ == old(out)@ + tys_text(ts@),
        decreases ts@,
    {
        let ghost start = out@;
        let mut i: usize = 0;
        while i < ts.len()
            invariant
                i <= ts@.len(),
                out@ == start + tys_text(ts@.take(i as int)),
            decreases ts.len() - i,
        {
            if i > 0 {
                out.append(", ");
            }
            ts[i].render_into(out);
            assert(ts@.take(i + 1).drop_last() =~= ts@.take(i as int));
            assert(out@ =~= start + tys_text(ts@.take(i + 1)));
            i = i + 1;
        }
        assert(ts@.take(ts@.len() as int) =~= ts@);
    }

    /// Appends the `name: type` fields, `", "`-separated.
    #[verifier::loop_isolation(false)]
    fn render_fields(fields: &Vec<(String, Ty)>, out: &mut String)
        ensures
            final(out)@ == old(out)@ + fields_text(fields@),
        decreases fields@,
    {
        let ghost start = out@;
        let mut i: usize = 0;
        while i < fields.len()
            invariant
                i <= fields@.len(),
                out@ == start + fields_text(fields@.take(i as int)),
            decreases fields.len() - i,
        {
            if i > 0 {
                out.append(", ");
            }
            out.append(fields[i].0.as_str());
            out.append(": ");
            fields[i].1.render_into(out);
            assert(fields@.take(i + 1).drop_last() =~= fields@.take(i as int));
            assert(out@ =~= start + fields_text(fields@.take(i + 1)));
            i = i + 1;
        }
        assert(fields@.take(fields@.len() as int) =~= fields@);
    }

    /// How this type is written: `List[I32]`, `(I32, Bool)`,
    /// `(I32) -> Bool uses [Console]`, `I32 ! IoError`, `{ x: I32 }`, …
    pub fn to_string(&self) -> (s: String)
        ensures
            s@ == ty_text(*self),
    {
        let mut out = String::new();
        self.render_into(&mut out);
        assert(out@ =~= ty_text(*self));
        out
    }
}

} // verus!
