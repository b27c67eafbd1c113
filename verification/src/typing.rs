//! Typing rules of single expression forms, applied to the types of their
//! already checked parts: unary operators, `if` conditions and results,
//! and `?` propagation of outcomes; and the checks that make a function's
//! declared error set a contract: what it throws and what the functions it
//! calls may fail with must be declared.

use vstd::prelude::*;
use crate::ast::{Expr, UnaryOp};
use crate::effect_set::EffectSet;
use crate::names::{join_strings, join_with, lemma_sorted_unique, sorted, sorted_listing, views};
use vstd::string::StrSliceExecFns;
use crate::check::{Checker, Diags, apply_view, frame, unify_depth, unify_frame, unify_spec};
use crate::error::{ErrorCode, diags};
use crate::expr::{is_numeric_v, merge_spec};
use crate::pattern::{is_integer_v, lemma_kind_view};
use crate::text::string_of;
use crate::types::{Ty, TyV, lemma_text_view, ty_view, tyv_text};

verus! {

/// The diagnostic for an operand of type `t` that is neither of the kind
/// `ok` asks for nor the error type: `what`, then the type.
pub open spec fn unary_diag(ok: bool, t: TyV, what: Seq<char>) -> Diags {
    if ok || t is Error {
        Seq::empty()
    } else {
        seq![(ErrorCode::E0002, what + " type `"@ + tyv_text(t) + "`"@)]
    }
}

/// The diagnostics and type of `op e` for an operand of type `t`: negation
/// needs a numeric operand and keeps its type, `!` needs `Bool` and gives
/// `Bool`, `~` needs an integer operand and keeps its type.
pub open spec fn unary_spec(op: UnaryOp, t: TyV) -> (Diags, TyV) {
    match op {
        UnaryOp::Neg => (unary_diag(is_numeric_v(t), t, "cannot negate"@), t),
        UnaryOp::Not => (unary_diag(t is Bool, t, "cannot apply `!` to"@), TyV::Bool),
        UnaryOp::BitNot => (unary_diag(is_integer_v(t), t, "cannot apply `~` to"@), t),
    }
}

/// The diagnostics for an `if` condition of type `c`: none for `Bool` or
/// the error type.
pub open spec fn condition_diag(c: TyV) -> Diags {
    if c is Bool || c is Error {
        Seq::empty()
    } else {
        seq![(ErrorCode::E0001, "if condition must be Bool, got `"@ + tyv_text(c) + "`"@)]
    }
}

/// The substitution, diagnostics and type of an `if` whose branches have
/// types `t` and, where there is an else branch, `e`: the branches merge;
/// without an else branch the then branch must be `Unit`, and so is the
/// whole.
pub open spec fn if_result_spec(s: Map<u32, TyV>, t: TyV, e: Option<TyV>) -> (Map<u32, TyV>, Diags, TyV) {
    match e {
        Some(et) => merge_spec(s, t, et, "if/else branches"@),
        None => {
            let (s1, d) = unify_spec(unify_depth(), s, TyV::Unit, t, "if without else must be Unit"@);
            (s1, d, TyV::Unit)
        },
    }
}

/// The message for `?` outside a function that returns an outcome.
pub open spec fn no_enclosing_outcome_message() -> Seq<char> {
    "`?` requires an enclosing outcome return type such as `A ! E`"@
}

/// The substitution, diagnostics and type of `x?` for `x` of type `inner`,
/// in a function whose outcome failure type is `enclosing`, if it returns
/// an outcome. An outcome gives its success type, and its failure type
/// must agree with the enclosing one; the error type stays the error type;
/// anything else is reported.
pub open spec fn try_spec(s: Map<u32, TyV>, inner: TyV, enclosing: Option<TyV>) -> (
    Map<u32, TyV>,
    Diags,
    TyV,
) {
    let t = apply_view(s, s.dom().len(), inner);
    match t {
        TyV::Outcome(success, failure) => match enclosing {
            Some(ef) => {
                let (s1, d) = unify_spec(unify_depth(), s, ef, *failure, "outcome propagation with `?`"@);
                (s1, d, *success)
            },
            None => (s, seq![(ErrorCode::E0012, no_enclosing_outcome_message())], *success),
        },
        TyV::Error => (s, Seq::empty(), TyV::Error),
        _ => (s, seq![(ErrorCode::E0012, "`?` expects an outcome value, got `"@ + tyv_text(t) + "`"@)], TyV::Error),
    }
}

impl Checker {
    /// Reports `what`, then the type `t`, as an operand error.
    fn report_operand(&mut self, what: &str, t: &Ty)
        ensures
            diags(final(self).errors@) == diags(old(self).errors@).push(
                (ErrorCode::E0002, what@ + " type `"@ + tyv_text(ty_view(*t)) + "`"@),
            ),
            frame(*old(self), *final(self)),
            final(self).next_var() == old(self).next_var(),
    {
        let mut message = string_of(what);
        message.append(" type `");
        let text = t.to_string();
        proof { lemma_text_view(*t); }
        message.append(text.as_str());
        message.append("`");
        self.err(ErrorCode::E0002, message);
    }

    /// The type of `op e` for an operand `e` of type `ty`, as `unary_spec`
    /// says.
    pub fn check_unary_types(&mut self, op: UnaryOp, ty: Ty) -> (r: Ty)
        ensures
            ({
                let (d, t) = unary_spec(op, ty_view(ty));
                &&& diags(final(self).errors@) == diags(old(self).errors@) + d
                &&& ty_view(r) == t
            }),
            frame(*old(self), *final(self)),
            final(self).next_var() == old(self).next_var(),
    {
        proof { lemma_kind_view(ty); }
        let skip = ty.is_error();
        match op {
            UnaryOp::Neg => {
                if !ty.is_numeric() && !skip {
                    proof { reveal_strlit("cannot negate"); }
                    self.report_operand("cannot negate", &ty);
                } else {
                    assert(diags(self.errors@) =~= diags(old(self).errors@) + Seq::empty());
                }
                ty
            },
            UnaryOp::Not => {
                if !matches!(ty, Ty::Bool) && !skip {
                    self.report_operand("cannot apply `!` to", &ty);
                } else {
                    assert(diags(self.errors@) =~= diags(old(self).errors@) + Seq::empty());
                }
                Ty::Bool
            },
            UnaryOp::BitNot => {
                if !ty.is_integer() && !skip {
                    self.report_operand("cannot apply `~` to", &ty);
                } else {
                    assert(diags(self.errors@) =~= diags(old(self).errors@) + Seq::empty());
                }
                ty
            },
        }
    }

    /// Checks that an `if` condition of type `cond_ty` is `Bool`, as
    /// `condition_diag` says.
    pub fn check_condition_type(&mut self, cond_ty: &Ty)
        ensures
            diags(final(self).errors@) == diags(old(self).errors@) + condition_diag(ty_view(*cond_ty)),
            frame(*old(self), *final(self)),
            final(self).next_var() == old(self).next_var(),
    {
        proof { lemma_kind_view(*cond_ty); }
        if !matches!(cond_ty, Ty::Bool) && !cond_ty.is_error() {
            let mut message = string_of("if condition must be Bool, got `");
            let text = cond_ty.to_string();
            proof { lemma_text_view(*cond_ty); }
            message.append(text.as_str());
            message.append("`");
            self.err(ErrorCode::E0001, message);
        } else {
            assert(diags(self.errors@) =~= diags(old(self).errors@) + Seq::empty());
        }
    }

    /// The type of an `if` whose branches have types `then_ty` and
    /// `else_ty`, as `if_result_spec` says.
    pub fn if_result_type(&mut self, then_ty: Ty, else_ty: Option<Ty>) -> (r: Ty)
        ensures
            ({
                let e = match else_ty {
                    Some(x) => Some(ty_view(x)),
                    None => None,
                };
                let (s, d, t) = if_result_spec(old(self).substitution@, ty_view(then_ty), e);
                &&& final(self).substitution@ == s
                &&& diags(final(self).errors@) == diags(old(self).errors@) + d
                &&& ty_view(r) == t
            }),
            unify_frame(*old(self), *final(self)),
    {
        match else_ty {
            Some(e) => self.merge_branch_types(then_ty, e, "if/else branches"),
            None => {
                self.unify(&Ty::Unit, &then_ty, "if without else must be Unit");
                Ty::Unit
            },
        }
    }

    /// The type of `x?` for `x` of type `inner_ty`, in a function whose
    /// outcome failure type is `enclosing_failure`, as `try_spec` says.
    pub fn check_try_type(&mut self, inner_ty: &Ty, enclosing_failure: Option<&Ty>) -> (r: Ty)
        ensures
            ({
                let e = match enclosing_failure {
                    Some(x) => Some(ty_view(*x)),
                    None => None,
                };
                let (s, d, t) = try_spec(old(self).substitution@, ty_view(*inner_ty), e);
                &&& final(self).substitution@ == s
                &&& diags(final(self).errors@) == diags(old(self).errors@) + d
                &&& ty_view(r) == t
            }),
            unify_frame(*old(self), *final(self)),
    {
        let ty = self.apply_subst(inner_ty);
        match ty {
            Ty::Outcome(success, failure) => {
                match enclosing_failure {
                    Some(ef) => {
                        self.unify(ef, &failure, "outcome propagation with `?`");
                    },
                    None => {
                        let message = string_of("`?` requires an enclosing outcome return type such as `A ! E`");
                        self.err(ErrorCode::E0012, message);
                    },
                }
                *success
            },
            Ty::Error => {
                assert(diags(self.errors@) =~= diags(old(self).errors@) + Seq::empty());
                Ty::Error
            },
            other => {
                let mut message = string_of("`?` expects an outcome value, got `");
                let text = other.to_string();
                proof { lemma_text_view(other); }
                message.append(text.as_str());
                message.append("`");
                self.err(ErrorCode::E0012, message);
                Ty::Error
            },
        }
    }
}


// ---------------------------------------------------------------------------
// Error sets
// ---------------------------------------------------------------------------

/// Whether `c` is an uppercase letter in Unicode's sense.
pub uninterp spec fn is_uppercase_char(c: char) -> bool;

/// `char::is_uppercase`: whether `c` has Unicode's `Uppercase` property.
/// The contract names the result and states it for ASCII letters only;
/// the rest of Unicode's tables is not written out.
#[verifier::external_body]
fn char_is_uppercase(c: char) -> (b: bool)
    ensures
        b == is_uppercase_char(c),
        ('A' <= c && c <= 'Z') ==> b,
        ('a' <= c && c <= 'z') ==> !b,
{
    c.is_uppercase()
}

/// A name that reads as an error type: it starts with an uppercase letter.
pub open spec fn looks_like_error_name(n: Seq<char>) -> bool {
    n.len() > 0 && is_uppercase_char(n[0])
}

/// The error a `throw` expression names, as far as its shape shows it: a
/// capitalised variable, a call of one, or a literal of a capitalised
/// struct.
pub open spec fn thrown_name(e: Expr) -> Option<Seq<char>> {
    match e {
        Expr::Var(n) => if looks_like_error_name(n@) {
            Some(n@)
        } else {
            None
        },
        Expr::Call(callee, _) => match *callee {
            Expr::Var(n) => if looks_like_error_name(n@) {
                Some(n@)
            } else {
                None
            },
            _ => None,
        },
        Expr::StructLit(n, _) => if looks_like_error_name(n@) {
            Some(n@)
        } else {
            None
        },
        _ => None,
    }
}

/// The message for errors a callee may fail with that the caller does not
/// declare.
pub open spec fn missing_errors_message(missing: Set<Seq<char>>) -> Seq<char> {
    "missing errors ["@ + join_with(sorted_listing(missing), ", "@)
        + "] in `?`: caller does not declare them in its error set"@
}

/// The diagnostics for `throw e` in function `f` that declares the errors
/// `declared`: a function without an error set may not throw, and a named
/// thrown error must be declared.
pub open spec fn throw_diags(f: Seq<char>, declared: Set<Seq<char>>, e: Expr) -> Diags {
    if declared.len() == 0 {
        seq![(ErrorCode::E0012, "`throw` in `"@ + f + "` requires declaring an error set with `! E`"@)]
    } else {
        match thrown_name(e) {
            Some(n) => if declared.contains(n) {
                Seq::empty()
            } else {
                seq![(ErrorCode::E0012, "thrown error `"@ + n + "` is not declared in `"@ + f + "` error set"@)]
            },
            None => Seq::empty(),
        }
    }
}

/// Whether `name` starts with an uppercase letter.
fn name_looks_like_error(name: &String) -> (b: bool)
    ensures
        b == looks_like_error_name(name@),
{
    let s = name.as_str();
    if s.unicode_len() == 0 {
        false
    } else {
        char_is_uppercase(s.get_char(0))
    }
}

impl Checker {
    /// The error a `throw` expression names, as `thrown_name` says.
    pub fn infer_thrown_error_name(&self, expr: &Expr) -> (r: Option<String>)
        ensures
            match r {
                Some(n) => thrown_name(*expr) == Some(n@),
                None => thrown_name(*expr) is None,
            },
    {
        match expr {
            Expr::Var(name) => if name_looks_like_error(name) {
                Some(name.clone())
            } else {
                None
            },
            Expr::Call(callee, _) => match &**callee {
                Expr::Var(name) => if name_looks_like_error(name) {
                    Some(name.clone())
                } else {
                    None
                },
                _ => None,
            },
            Expr::StructLit(name, _) => if name_looks_like_error(name) {
                Some(name.clone())
            } else {
                None
            },
            _ => None,
        }
    }

    /// Checks `throw thrown_expr` against the current function's declared
    /// error set, as `throw_diags` says.
    pub fn check_throw_coverage(&mut self, thrown_expr: &Expr)
        ensures
            diags(final(self).errors@) == diags(old(self).errors@) + throw_diags(
                old(self).current_function@,
                old(self).current_errors@,
                *thrown_expr,
            ),
            frame(*old(self), *final(self)),
            final(self).next_var() == old(self).next_var(),
            final(self).current_errors == old(self).current_errors,
    {
        proof { self.current_errors.lemma_finite(); }
        if self.current_errors.len() == 0 {
            let mut message = string_of("`throw` in `");
            message.append(self.current_function.as_str());
            message.append("` requires declaring an error set with `! E`");
            self.err(ErrorCode::E0012, message);
            return;
        }
        let thrown = self.infer_thrown_error_name(thrown_expr);
        match thrown {
            Some(name) => {
                if !self.current_errors.contains(name.as_str()) {
                    let mut message = string_of("thrown error `");
                    message.append(name.as_str());
                    message.append("` is not declared in `");
                    message.append(self.current_function.as_str());
                    message.append("` error set");
                    self.err(ErrorCode::E0012, message);
                } else {
                    assert(diags(self.errors@) =~= diags(old(self).errors@) + Seq::empty());
                }
            },
            None => {
                assert(diags(self.errors@) =~= diags(old(self).errors@) + Seq::empty());
            },
        }
    }

    /// Checks that the current function declares every error that a callee
    /// may fail with: when some are missing, one diagnostic names them in
    /// increasing order.
    pub fn check_error_propagation(&mut self, callee_errors: &EffectSet)
        ensures
            callee_errors@.subset_of(old(self).current_errors@) ==> final(self).errors@ == old(self).errors@,
            !callee_errors@.subset_of(old(self).current_errors@) ==> diags(final(self).errors@)
                == diags(old(self).errors@).push(
                (ErrorCode::E0012, missing_errors_message(callee_errors@.difference(old(self).current_errors@))),
            ),
            frame(*old(self), *final(self)),
            final(self).next_var() == old(self).next_var(),
            final(self).current_errors == old(self).current_errors,
    {
        let missing = self.current_errors.missing_from(callee_errors);
        if missing.len() > 0 {
            let ghost d = callee_errors@.difference(self.current_errors@);
            proof {
                assert(sorted(sorted_listing(d)) && sorted_listing(d).to_set() == d);
                lemma_sorted_unique(views(missing@), sorted_listing(d));
            }
            let mut message = string_of("missing errors [");
            let list = join_strings(missing.as_slice(), ", ");
            message.append(list.as_str());
            message.append("] in `?`: caller does not declare them in its error set");
            self.err(ErrorCode::E0012, message);
            proof {
                assert(!callee_errors@.subset_of(old(self).current_errors@)) by {
                    assert(views(missing@).len() > 0);
                    assert(d.contains(views(missing@)[0]));
                }
            }
        } else {
            proof {
                assert(views(missing@).to_set() =~= Set::<Seq<char>>::empty());
                assert forall|x: Seq<char>| callee_errors@.contains(x) implies old(self).current_errors@.contains(x) by {
                    if !old(self).current_errors@.contains(x) {
                        assert(callee_errors@.difference(old(self).current_errors@).contains(x));
                    }
                }
            }
        }
    }
}

} // verus!
