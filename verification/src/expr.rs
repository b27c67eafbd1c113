//! Pieces of expression checking: the type of a two-branch expression and
//! the types of integer literals.

use vstd::prelude::*;
use crate::ast::BinOp;
use crate::check::{Checker, Diags, apply_view, find_field, find_field_in, unify_depth, unify_spec, unify_frame};
use crate::env::TypeRegistry;
use crate::error::{ErrorCode, diags};
use crate::pattern::{Inference, inference, is_integer_v, report, struct_fields_spec, take_vars};
use crate::text::{chars_of, decimal, push_char, push_decimal, str_eq, string_of};
use crate::types::{
    Ty, TyV, base_of, clone_fields, clone_ty, fields_view, lemma_fields_view, lemma_text_view, ty_text,
    ty_view, tyv_text,
};

verus! {

// ---------------------------------------------------------------------------
// Branches
// ---------------------------------------------------------------------------

/// The type of an expression whose branches have types `left` and `right`,
/// under substitution `s`: the substitution and diagnostics after, and the
/// type.
///
/// Both types are resolved first. A branch of type `Never` gives way to
/// the other. Two outcomes unify and give the left; an outcome and a plain
/// type unify the outcome's success type with the plain type and give the
/// outcome; otherwise the two unify and give the left.
pub open spec fn merge_spec(s: Map<u32, TyV>, left: TyV, right: TyV, ctx: Seq<char>) -> (
    Map<u32, TyV>,
    Diags,
    TyV,
) {
    let l = apply_view(s, s.dom().len(), left);
    let r = apply_view(s, s.dom().len(), right);
    if l is Never {
        (s, Seq::empty(), r)
    } else if r is Never {
        (s, Seq::empty(), l)
    } else if l is Outcome && r is Outcome {
        let (s1, d) = unify_spec(unify_depth(), s, l, r, ctx);
        (s1, d, l)
    } else if l is Outcome {
        let (s1, d) = unify_spec(unify_depth(), s, *l->Outcome_0, r, ctx);
        (s1, d, l)
    } else if r is Outcome {
        let (s1, d) = unify_spec(unify_depth(), s, l, *r->Outcome_0, ctx);
        (s1, d, r)
    } else {
        let (s1, d) = unify_spec(unify_depth(), s, l, r, ctx);
        (s1, d, l)
    }
}

impl Checker {
    /// The type of a two-branch expression whose branches have types `left`
    /// and `right`, unifying them as `merge_spec` says.
    pub fn merge_branch_types(&mut self, left: Ty, right: Ty, context: &str) -> (r: Ty)
        ensures
            ({
                let (s, d, t) = merge_spec(old(self).substitution@, ty_view(left), ty_view(right), context@);
                &&& final(self).substitution@ == s
                &&& diags(final(self).errors@) == diags(old(self).errors@) + d
                &&& ty_view(r) == t
            }),
            unify_frame(*old(self), *final(self)),
    {
        let left = self.apply_subst(&left);
        let right = self.apply_subst(&right);
        match (&left, &right) {
            (Ty::Never, _) => {
                assert(diags(self.errors@) =~= diags(old(self).errors@) + Seq::empty());
                right
            },
            (_, Ty::Never) => {
                assert(diags(self.errors@) =~= diags(old(self).errors@) + Seq::empty());
                left
            },
            (Ty::Outcome(_, _), Ty::Outcome(_, _)) => {
                self.unify(&left, &right, context);
                left
            },
            (Ty::Outcome(success, _), _) => {
                self.unify(success, &right, context);
                left
            },
            (_, Ty::Outcome(success, _)) => {
                self.unify(&left, success, context);
                right
            },
            _ => {
                self.unify(&left, &right, context);
                left
            },
        }
    }
}

// ---------------------------------------------------------------------------
// Integer literals
// ---------------------------------------------------------------------------

/// Whether the integer `n` fits the integer type `t` (stripped of its
/// refinements); none for a type that is no integer type.
pub open spec fn literal_fits(t: Ty, n: int) -> Option<bool> {
    match base_of(t) {
        Ty::I8 => Some(i8::MIN <= n <= i8::MAX),
        Ty::I16 => Some(i16::MIN <= n <= i16::MAX),
        Ty::I32 => Some(i32::MIN <= n <= i32::MAX),
        Ty::I64 => Some(true),
        Ty::U8 => Some(0 <= n <= u8::MAX),
        Ty::U16 => Some(0 <= n <= u16::MAX),
        Ty::U32 => Some(0 <= n <= u32::MAX),
        Ty::U64 => Some(0 <= n),
        _ => None,
    }
}

/// The integer type a literal suffix names.
pub open spec fn suffix_type(s: Seq<char>) -> Option<TyV> {
    if s == "i8"@ {
        Some(TyV::I8)
    } else if s == "i16"@ {
        Some(TyV::I16)
    } else if s == "i32"@ {
        Some(TyV::I32)
    } else if s == "i64"@ {
        Some(TyV::I64)
    } else if s == "u8"@ {
        Some(TyV::U8)
    } else if s == "u16"@ {
        Some(TyV::U16)
    } else if s == "u32"@ {
        Some(TyV::U32)
    } else if s == "u64"@ {
        Some(TyV::U64)
    } else {
        None
    }
}

/// Decimal rendering of an integer, with a minus sign when negative.
pub open spec fn signed_decimal(n: int) -> Seq<char> {
    if n < 0 {
        seq!['-'] + decimal((-n) as nat)
    } else {
        decimal(n as nat)
    }
}

/// Appends the decimal rendering of `n`, with a minus sign when negative.
fn push_signed(s: &mut String, n: i64)
    ensures
        final(s)@ == old(s)@ + signed_decimal(n as int),
{
    if n < 0 {
        push_char(s, '-');
        let m: u64 = (0i128 - n as i128) as u64;
        push_decimal(s, m);
        assert(final(s)@ =~= old(s)@ + signed_decimal(n as int));
    } else {
        push_decimal(s, n as u64);
    }
}

impl Checker {
    /// Whether `n` fits the integer type `expected` (through refinements);
    /// none for a type that is no integer type.
    pub fn integer_literal_fits(expected: &Ty, n: i64) -> (r: Option<bool>)
        ensures
            r == literal_fits(*expected, n as int),
    {
        match expected.base_type() {
            Ty::I8 => Some(-128 <= n && n <= 127),
            Ty::I16 => Some(-32768 <= n && n <= 32767),
            Ty::I32 => Some(-2147483648 <= n && n <= 2147483647),
            Ty::I64 => Some(true),
            Ty::U8 => Some(0 <= n && n <= 255),
            Ty::U16 => Some(0 <= n && n <= 65535),
            Ty::U32 => Some(0 <= n && n <= 4294967295),
            Ty::U64 => Some(n >= 0),
            _ => None,
        }
    }

    /// The integer type a literal suffix (`i8` … `u64`) names.
    pub fn integer_suffix_ty(suffix: &str) -> (r: Option<Ty>)
        ensures
            match r {
                Some(t) => suffix_type(suffix@) == Some(ty_view(t)),
                None => suffix_type(suffix@) is None,
            },
    {
        if str_eq(suffix, "i8") {
            Some(Ty::I8)
        } else if str_eq(suffix, "i16") {
            Some(Ty::I16)
        } else if str_eq(suffix, "i32") {
            Some(Ty::I32)
        } else if str_eq(suffix, "i64") {
            Some(Ty::I64)
        } else if str_eq(suffix, "u8") {
            Some(Ty::U8)
        } else if str_eq(suffix, "u16") {
            Some(Ty::U16)
        } else if str_eq(suffix, "u32") {
            Some(Ty::U32)
        } else if str_eq(suffix, "u64") {
            Some(Ty::U64)
        } else {
            None
        }
    }

    /// The type of the literal `n` written with suffix `suffix`: the type the
    /// suffix names, or the error type after reporting an unknown suffix or a
    /// value that does not fit.
    pub fn check_suffixed_int_literal(&mut self, n: i64, suffix: &str) -> (r: Ty)
        ensures
            match suffix_type(suffix@) {
                None => {
                    &&& r is Error
                    &&& diags(final(self).errors@) == diags(old(self).errors@).push(
                        (ErrorCode::E0001, "unknown integer literal suffix `"@ + suffix@ + "`"@),
                    )
                },
                Some(t) => if literal_fits_v(t, n as int) {
                    &&& ty_view(r) == t
                    &&& final(self).errors == old(self).errors
                } else {
                    &&& r is Error
                    &&& diags(final(self).errors@) == diags(old(self).errors@).push(
                        (
                            ErrorCode::E0001,
                            "integer literal `"@ + signed_decimal(n as int) + suffix@
                                + "` does not fit `"@ + suffix_text(t) + "`"@,
                        ),
                    )
                },
            },
            final(self).substitution == old(self).substitution,
            final(self).registry == old(self).registry,
            final(self).current_effects == old(self).current_effects,
            final(self).current_function == old(self).current_function,
            final(self).observed() == old(self).observed(),
            final(self).next_var() == old(self).next_var(),
    {
        let ty = match Self::integer_suffix_ty(suffix) {
            Some(t) => t,
            None => {
                let mut message = string_of("unknown integer literal suffix `");
                message.append(suffix);
                message.append("`");
                self.err(ErrorCode::E0001, message);
                return Ty::Error;
            },
        };
        proof { lemma_suffix_fits(ty, n as int); }
        match Self::integer_literal_fits(&ty, n) {
            Some(true) => ty,
            _ => {
                let mut message = string_of("integer literal `");
                push_signed(&mut message, n);
                message.append(suffix);
                message.append("` does not fit `");
                let text = ty.to_string();
                proof { lemma_text_view(ty); }
                message.append(text.as_str());
                message.append("`");
                self.err(ErrorCode::E0001, message);
                Ty::Error
            },
        }
    }
}

/// Whether the integer `n` fits the integer type `t`.
pub open spec fn literal_fits_v(t: TyV, n: int) -> bool {
    match t {
        TyV::I8 => i8::MIN <= n <= i8::MAX,
        TyV::I16 => i16::MIN <= n <= i16::MAX,
        TyV::I32 => i32::MIN <= n <= i32::MAX,
        TyV::I64 => true,
        TyV::U8 => 0 <= n <= u8::MAX,
        TyV::U16 => 0 <= n <= u16::MAX,
        TyV::U32 => 0 <= n <= u32::MAX,
        TyV::U64 => 0 <= n,
        _ => false,
    }
}

/// How an integer type is written.
pub open spec fn suffix_text(t: TyV) -> Seq<char> {
    match t {
        TyV::I8 => "I8"@,
        TyV::I16 => "I16"@,
        TyV::I32 => "I32"@,
        TyV::I64 => "I64"@,
        TyV::U8 => "U8"@,
        TyV::U16 => "U16"@,
        TyV::U32 => "U32"@,
        _ => "U64"@,
    }
}

/// For an integer type named by a suffix, the general fit test and the one
/// on values agree, and its text is how it is written.
proof fn lemma_suffix_fits(t: Ty, n: int)
    requires
        t is I8 || t is I16 || t is I32 || t is I64 || t is U8 || t is U16 || t is U32 || t is U64,
    ensures
        literal_fits(t, n) == Some(literal_fits_v(ty_view(t), n)),
        ty_text(t) == suffix_text(ty_view(t)),
{
}

// ---------------------------------------------------------------------------
// Field access
// ---------------------------------------------------------------------------

/// The prefix of the names of the self types of handlers, whose fields are
/// inferred from their use.
pub open spec fn handler_prefix() -> Seq<char> {
    "__handler::"@
}

/// Accessing field `f` of a value of type `t`: the state after, the field's
/// type, and the field a handler's self type gains, if any.
///
/// A named or applied struct type gives the type of its first field of that
/// name (instantiated for the type's arguments); a handler's self type
/// without the field gains it with a fresh variable as its type; other
/// structs report the missing field. A named type that is no struct, or any
/// other type but the error type, has no fields.
pub open spec fn field_access_spec(reg: TypeRegistry, st: Inference, t: TyV, f: Seq<char>) -> (
    Inference,
    TyV,
    Option<(Seq<char>, TyV)>,
) {
    if t is Named || t is App {
        let n = if t is Named {
            t->Named_0
        } else {
            t->App_0
        };
        if reg.structs@.contains_key(n) {
            let (st1, fields, _) = struct_fields_spec(reg, st, n, fields_view(reg.structs@[n]@), t);
            match find_field(fields, f) {
                Some(ft) => (st1, ft, None),
                None => if handler_prefix().is_prefix_of(n) {
                    (take_vars(st1, 1), TyV::Var(st1.v), Some((n, TyV::Var(st1.v))))
                } else {
                    (
                        report(st1, ErrorCode::E0015, "struct `"@ + n + "` has no field `"@ + f + "`"@),
                        TyV::Error,
                        None,
                    )
                },
            }
        } else {
            (report(st, ErrorCode::E0016, "type `"@ + n + "` has no fields"@), TyV::Error, None)
        }
    } else if t is Error {
        (st, TyV::Error, None)
    } else {
        (
            report(st, ErrorCode::E0016, "cannot access field `"@ + f + "` on type `"@ + tyv_text(t) + "`"@),
            TyV::Error,
            None,
        )
    }
}

/// Whether `s` starts with `p`.
fn has_prefix(s: &str, p: &str) -> (b: bool)
    ensures
        b == p@.is_prefix_of(s@),
{
    let sc = chars_of(s);
    let pc = chars_of(p);
    if pc.len() > sc.len() {
        return false;
    }
    let mut i: usize = 0;
    while i < pc.len()
        invariant
            i <= pc@.len() <= sc@.len(),
            sc@ == s@,
            pc@ == p@,
            forall|k: int| 0 <= k < i ==> pc@[k] == sc@[k],
        decreases pc.len() - i,
    {
        if pc[i] != sc[i] {
            return false;
        }
        i = i + 1;
    }
    assert(p@ =~= s@.take(p@.len() as int));
    true
}

impl Checker {
    /// The type of field `field` of a value of type `ty`, as
    /// `field_access_spec` says; a handler's self type gains a missing field.
    pub fn check_field_access_on_type(&mut self, ty: &Ty, field: &str) -> (r: Ty)
        ensures
            ({
                let (st, t, added) = field_access_spec(old(self).registry, inference(*old(self)), ty_view(*ty), field@);
                &&& inference(*final(self)) == st
                &&& ty_view(r) == t
                &&& match added {
                    None => final(self).registry == old(self).registry,
                    Some((n, ft)) => {
                        &&& final(self).registry.structs@.dom() == old(self).registry.structs@.dom()
                        &&& fields_view(final(self).registry.structs@[n]@) == fields_view(
                            old(self).registry.structs@[n]@,
                        ).push((field@, ft))
                        &&& forall|k: Seq<char>|
                            k != n && #[trigger] old(self).registry.structs@.contains_key(k)
                                ==> final(self).registry.structs@[k] == old(self).registry.structs@[k]
                    },
                }
            }),
            final(self).current_effects == old(self).current_effects,
            final(self).current_function == old(self).current_function,
            final(self).observed() == old(self).observed(),
    {
        let name = match ty {
            Ty::Named(n) => n,
            Ty::App(n, _) => n,
            Ty::Error => {
                return Ty::Error;
            },
            _ => {
                let mut message = string_of("cannot access field `");
                message.append(field);
                message.append("` on type `");
                let text = ty.to_string();
                proof { lemma_text_view(*ty); }
                message.append(text.as_str());
                message.append("`");
                self.err(ErrorCode::E0016, message);
                return Ty::Error;
            },
        };
        let def = match self.registry.structs.get(name.as_str()) {
            Some(d) => clone_fields(d),
            None => {
                let mut message = string_of("type `");
                message.append(name.as_str());
                message.append("` has no fields");
                self.err(ErrorCode::E0016, message);
                return Ty::Error;
            },
        };
        let (fields, _) = self.struct_fields_for_type(name.as_str(), &def, ty);
        proof { lemma_fields_view(fields@); }
        match find_field_in(fields.as_slice(), field) {
            Some(j) => clone_ty(&fields[j].1),
            None => {
                if has_prefix(name.as_str(), "__handler::") {
                    let ghost v0 = self.next_var();
                    let inferred = self.fresh_var();
                    assert(crate::check::advance(v0, 1) == crate::check::next_id(v0)) by {
                        reveal_with_fuel(crate::check::advance, 2);
                    }
                    let mut extended = clone_fields(&def);
                    let ghost prev = extended@;
                    extended.push((string_of(field), clone_ty(&inferred)));
                    proof {
                        lemma_fields_view(prev);
                        lemma_fields_view(extended@);
                        assert(fields_view(extended@) =~= fields_view(def@).push((field@, ty_view(inferred))));
                    }
                    let ghost structs0 = self.registry.structs@;
                    self.registry.structs.insert(name.clone(), extended);
                    assert(self.registry.structs@.dom() =~= structs0.dom());
                    inferred
                } else {
                    let mut message = string_of("struct `");
                    message.append(name.as_str());
                    message.append("` has no field `");
                    message.append(field);
                    message.append("`");
                    self.err(ErrorCode::E0015, message);
                    Ty::Error
                }
            },
        }
    }
}

// ---------------------------------------------------------------------------
// Binary operators
// ---------------------------------------------------------------------------

/// How an operator is named in diagnostics.
pub open spec fn binop_name(op: BinOp) -> Seq<char> {
    match op {
        BinOp::Add => "Add"@,
        BinOp::Sub => "Sub"@,
        BinOp::Mul => "Mul"@,
        BinOp::Div => "Div"@,
        BinOp::Mod => "Mod"@,
        BinOp::Eq => "Eq"@,
        BinOp::Ne => "Ne"@,
        BinOp::Lt => "Lt"@,
        BinOp::Gt => "Gt"@,
        BinOp::Le => "Le"@,
        BinOp::Ge => "Ge"@,
        BinOp::And => "And"@,
        BinOp::Or => "Or"@,
        BinOp::BitAnd => "BitAnd"@,
        BinOp::BitOr => "BitOr"@,
        BinOp::BitXor => "BitXor"@,
        BinOp::Shl => "Shl"@,
        BinOp::Shr => "Shr"@,
    }
}

/// The integer types and the two float types.
pub open spec fn is_numeric_v(t: TyV) -> bool {
    is_integer_v(t) || t is F32 || t is F64
}

/// The diagnostic for an operand of type `t` that an operator named `n`
/// of kind `kind` does not take, if it does not.
pub open spec fn operand_diag(ok: bool, what: Seq<char>, t: TyV) -> Diags {
    if ok {
        Seq::empty()
    } else {
        seq![(ErrorCode::E0002, what + ", got `"@ + tyv_text(t) + "`"@)]
    }
}

/// The type of `l op r` for operands of types `l` and `r` under
/// substitution `s`: the substitution and diagnostics after, and the type.
///
/// An error operand gives the error type. Arithmetic needs a numeric left
/// operand (two strings may be added) and unifies the operands; a
/// comparison unifies them and gives `Bool`; logical operators need `Bool`
/// operands and give `Bool`; bitwise operators need integer operands and
/// give the left type.
pub open spec fn binop_spec(s: Map<u32, TyV>, l: TyV, op: BinOp, r: TyV) -> (Map<u32, TyV>, Diags, TyV) {
    if l is Error || r is Error {
        (s, Seq::empty(), TyV::Error)
    } else {
        match op {
            BinOp::Add | BinOp::Sub | BinOp::Mul | BinOp::Div | BinOp::Mod => if op is Add && l is Str
                && r is Str {
                (s, Seq::empty(), TyV::Str)
            } else if !is_numeric_v(l) {
                (
                    s,
                    seq![
                        (ErrorCode::E0002, "cannot apply `"@ + binop_name(op) + "` to type `"@ + tyv_text(l)
                            + "`"@),
                    ],
                    TyV::Error,
                )
            } else {
                let (s1, d) = unify_spec(unify_depth(), s, l, r, "arithmetic operands"@);
                (s1, d, l)
            },
            BinOp::Eq | BinOp::Ne | BinOp::Lt | BinOp::Gt | BinOp::Le | BinOp::Ge => {
                let (s1, d) = unify_spec(unify_depth(), s, l, r, "comparison operands"@);
                (s1, d, TyV::Bool)
            },
            BinOp::And | BinOp::Or => {
                let what = "logical `"@ + binop_name(op) + "` expects Bool"@;
                (s, operand_diag(l is Bool, what, l) + operand_diag(r is Bool, what, r), TyV::Bool)
            },
            _ => {
                let what = "bitwise `"@ + binop_name(op) + "` expects integer type"@;
                (s, operand_diag(is_integer_v(l), what, l) + operand_diag(is_integer_v(r), what, r), l)
            },
        }
    }
}

/// The name of an operator.
fn binop_text(op: BinOp) -> (r: String)
    ensures
        r@ == binop_name(op),
{
    match op {
        BinOp::Add => string_of("Add"),
        BinOp::Sub => string_of("Sub"),
        BinOp::Mul => string_of("Mul"),
        BinOp::Div => string_of("Div"),
        BinOp::Mod => string_of("Mod"),
        BinOp::Eq => string_of("Eq"),
        BinOp::Ne => string_of("Ne"),
        BinOp::Lt => string_of("Lt"),
        BinOp::Gt => string_of("Gt"),
        BinOp::Le => string_of("Le"),
        BinOp::Ge => string_of("Ge"),
        BinOp::And => string_of("And"),
        BinOp::Or => string_of("Or"),
        BinOp::BitAnd => string_of("BitAnd"),
        BinOp::BitOr => string_of("BitOr"),
        BinOp::BitXor => string_of("BitXor"),
        BinOp::Shl => string_of("Shl"),
        BinOp::Shr => string_of("Shr"),
    }
}

impl Checker {
    /// Reports an operand of type `t` that an operator does not take, when
    /// `ok` fails: `what`, then the type.
    fn operand_check(&mut self, ok: bool, what: &String, t: &Ty)
        ensures
            diags(final(self).errors@) == diags(old(self).errors@) + operand_diag(ok, what@, ty_view(*t)),
            crate::check::frame(*old(self), *final(self)),
            final(self).next_var() == old(self).next_var(),
    {
        if !ok {
            let mut message = what.clone();
            message.append(", got `");
            let text = t.to_string();
            proof { lemma_text_view(*t); }
            message.append(text.as_str());
            message.append("`");
            self.err(ErrorCode::E0002, message);
        } else {
            assert(diags(self.errors@) =~= diags(old(self).errors@) + Seq::empty());
        }
    }

    /// The type of a binary operation whose operands have types `lt` and
    /// `rt`, as `binop_spec` says.
    pub fn check_binop_types(&mut self, lt: Ty, op: BinOp, rt: Ty) -> (r: Ty)
        ensures
            ({
                let (s, d, t) = binop_spec(old(self).substitution@, ty_view(lt), op, ty_view(rt));
                &&& final(self).substitution@ == s
                &&& diags(final(self).errors@) == diags(old(self).errors@) + d
                &&& ty_view(r) == t
            }),
            unify_frame(*old(self), *final(self)),
    {
        proof {
            crate::pattern::lemma_kind_view(lt);
            crate::pattern::lemma_kind_view(rt);
        }
        if lt.is_error() || rt.is_error() {
            assert(diags(self.errors@) =~= diags(old(self).errors@) + Seq::empty());
            return Ty::Error;
        }
        match op {
            BinOp::Add | BinOp::Sub | BinOp::Mul | BinOp::Div | BinOp::Mod => {
                if matches!(op, BinOp::Add) && matches!(lt, Ty::Str) && matches!(rt, Ty::Str) {
                    assert(diags(self.errors@) =~= diags(old(self).errors@) + Seq::empty());
                    return Ty::Str;
                }
                if !lt.is_numeric() {
                    let mut message = string_of("cannot apply `");
                    let name = binop_text(op);
                    message.append(name.as_str());
                    message.append("` to type `");
                    let text = lt.to_string();
                    proof { lemma_text_view(lt); }
                    message.append(text.as_str());
                    message.append("`");
                    self.err(ErrorCode::E0002, message);
                    return Ty::Error;
                }
                self.unify(&lt, &rt, "arithmetic operands");
                lt
            },
            BinOp::Eq | BinOp::Ne | BinOp::Lt | BinOp::Gt | BinOp::Le | BinOp::Ge => {
                self.unify(&lt, &rt, "comparison operands");
                Ty::Bool
            },
            BinOp::And | BinOp::Or => {
                let mut what = string_of("logical `");
                let name = binop_text(op);
                what.append(name.as_str());
                what.append("` expects Bool");
                self.operand_check(matches!(lt, Ty::Bool), &what, &lt);
                self.operand_check(matches!(rt, Ty::Bool), &what, &rt);
                Ty::Bool
            },
            _ => {
                let mut what = string_of("bitwise `");
                let name = binop_text(op);
                what.append(name.as_str());
                what.append("` expects integer type");
                self.operand_check(lt.is_integer(), &what, &lt);
                self.operand_check(rt.is_integer(), &what, &rt);
                lt
            },
        }
    }
}

} // verus!
