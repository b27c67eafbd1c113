use std::rc::Rc;

use sporec_typeck::ast::{BinOp, Expr};
use sporec_typeck::check::Checker;
use sporec_typeck::error::ErrorCode;
use sporec_typeck::types::Ty;

#[test]
fn never_branch_gives_way() {
    let mut c = Checker::new();
    assert_eq!(c.merge_branch_types(Ty::Never, Ty::I32, "if"), Ty::I32);
    assert_eq!(c.merge_branch_types(Ty::Bool, Ty::Never, "if"), Ty::Bool);
    assert!(c.errors.is_empty());
}

#[test]
fn branches_unify_and_keep_the_left() {
    let mut c = Checker::new();
    let v = c.fresh_var();
    // The left type is resolved before the branches unify.
    assert_eq!(c.merge_branch_types(v, Ty::Str, "if"), Ty::Var(0));
    assert_eq!(c.apply_subst(&Ty::Var(0)), Ty::Str);
    c.merge_branch_types(Ty::I32, Ty::Bool, "match arms");
    assert_eq!(c.errors.len(), 1);
    assert_eq!(c.errors[0].code, ErrorCode::E0001);
    assert_eq!(
        c.errors[0].message,
        "type mismatch in match arms: expected `I32`, got `Bool`"
    );
}

#[test]
fn outcome_branch_unifies_its_success_type() {
    let mut c = Checker::new();
    let outcome = Ty::Outcome(Box::new(Ty::I64), Box::new(Ty::Named("IoError".into())));
    let r = c.merge_branch_types(
        Ty::Outcome(Box::new(Ty::I64), Box::new(Ty::Named("IoError".into()))),
        Ty::I64,
        "if",
    );
    assert_eq!(r, outcome);
    let r = c.merge_branch_types(
        Ty::I64,
        Ty::Outcome(Box::new(Ty::I64), Box::new(Ty::Named("IoError".into()))),
        "if",
    );
    assert_eq!(r, outcome);
    assert!(c.errors.is_empty());
    c.merge_branch_types(
        Ty::Outcome(Box::new(Ty::I64), Box::new(Ty::Str)),
        Ty::Bool,
        "if",
    );
    assert_eq!(c.errors[0].message, "type mismatch in if: expected `I64`, got `Bool`");
}

#[test]
fn integer_literals_fit_their_types() {
    assert_eq!(Checker::integer_literal_fits(&Ty::I8, 127), Some(true));
    assert_eq!(Checker::integer_literal_fits(&Ty::I8, 128), Some(false));
    assert_eq!(Checker::integer_literal_fits(&Ty::I8, -128), Some(true));
    assert_eq!(Checker::integer_literal_fits(&Ty::U8, -1), Some(false));
    assert_eq!(Checker::integer_literal_fits(&Ty::U16, 65535), Some(true));
    assert_eq!(Checker::integer_literal_fits(&Ty::I32, 2147483648), Some(false));
    assert_eq!(Checker::integer_literal_fits(&Ty::U32, 4294967295), Some(true));
    assert_eq!(Checker::integer_literal_fits(&Ty::I64, i64::MIN), Some(true));
    assert_eq!(Checker::integer_literal_fits(&Ty::U64, 0), Some(true));
    assert_eq!(Checker::integer_literal_fits(&Ty::Str, 0), None);
    let refined = Ty::Refined(Box::new(Ty::U8), "x".into(), Rc::new(Expr::BoolLit(true)));
    assert_eq!(Checker::integer_literal_fits(&refined, 300), Some(false));
}

#[test]
fn integer_suffixes_name_types() {
    assert_eq!(Checker::integer_suffix_ty("i8"), Some(Ty::I8));
    assert_eq!(Checker::integer_suffix_ty("u64"), Some(Ty::U64));
    assert_eq!(Checker::integer_suffix_ty("f32"), None);
    assert_eq!(Checker::integer_suffix_ty(""), None);
}

#[test]
fn suffixed_literals_are_checked() {
    let mut c = Checker::new();
    assert_eq!(c.check_suffixed_int_literal(200, "u8"), Ty::U8);
    assert!(c.errors.is_empty());
    assert_eq!(c.check_suffixed_int_literal(-5, "u32"), Ty::Error);
    assert_eq!(c.errors[0].message, "integer literal `-5u32` does not fit `U32`");
    assert_eq!(c.check_suffixed_int_literal(300, "i8"), Ty::Error);
    assert_eq!(c.errors[1].message, "integer literal `300i8` does not fit `I8`");
    assert_eq!(c.check_suffixed_int_literal(1, "x9"), Ty::Error);
    assert_eq!(c.errors[2].code, ErrorCode::E0001);
    assert_eq!(c.errors[2].message, "unknown integer literal suffix `x9`");
    assert_eq!(c.check_suffixed_int_literal(i64::MIN, "u64"), Ty::Error);
    assert_eq!(
        c.errors[3].message,
        "integer literal `-9223372036854775808u64` does not fit `U64`"
    );
}

#[test]
fn field_access_on_struct_types() {
    let mut c = Checker::new();
    c.registry.structs.insert("Point".into(), vec![("x".into(), Ty::I32), ("y".into(), Ty::Bool)]);
    c.registry.structs.insert("Boxed".into(), vec![("item".into(), Ty::Named("A".into()))]);
    c.registry.struct_type_params.insert("Boxed".into(), vec!["A".into()]);
    assert_eq!(c.check_field_access_on_type(&Ty::Named("Point".into()), "y"), Ty::Bool);
    assert_eq!(
        c.check_field_access_on_type(&Ty::App("Boxed".into(), vec![Ty::Str]), "item"),
        Ty::Str
    );
    assert!(c.errors.is_empty());
    assert_eq!(c.check_field_access_on_type(&Ty::Named("Point".into()), "z"), Ty::Error);
    assert_eq!(c.errors[0].code, ErrorCode::E0015);
    assert_eq!(c.errors[0].message, "struct `Point` has no field `z`");
    assert_eq!(c.check_field_access_on_type(&Ty::Named("Color".into()), "r"), Ty::Error);
    assert_eq!(c.errors[1].code, ErrorCode::E0016);
    assert_eq!(c.errors[1].message, "type `Color` has no fields");
    assert_eq!(c.check_field_access_on_type(&Ty::I32, "x"), Ty::Error);
    assert_eq!(c.errors[2].message, "cannot access field `x` on type `I32`");
    assert_eq!(c.check_field_access_on_type(&Ty::Error, "x"), Ty::Error);
    assert_eq!(c.errors.len(), 3);
}

#[test]
fn handler_self_types_gain_fields() {
    let mut c = Checker::new();
    c.registry.structs.insert("__handler::Counter".into(), vec![]);
    let t = Ty::Named("__handler::Counter".into());
    assert_eq!(c.check_field_access_on_type(&t, "count"), Ty::Var(0));
    assert_eq!(c.check_field_access_on_type(&t, "count"), Ty::Var(0));
    assert_eq!(c.registry.structs.get("__handler::Counter").map(|f| f.len()), Some(1));
    assert!(c.errors.is_empty());
}

#[test]
fn binary_operator_types() {

    let mut c = Checker::new();
    assert_eq!(c.check_binop_types(Ty::Str, BinOp::Add, Ty::Str), Ty::Str);
    assert_eq!(c.check_binop_types(Ty::Error, BinOp::Add, Ty::Bool), Ty::Error);
    let v = c.fresh_var();
    assert_eq!(c.check_binop_types(Ty::I32, BinOp::Mul, v), Ty::I32);
    assert_eq!(c.apply_subst(&Ty::Var(0)), Ty::I32);
    assert!(c.errors.is_empty());
    assert_eq!(c.check_binop_types(Ty::Bool, BinOp::Add, Ty::I32), Ty::Error);
    assert_eq!(c.errors[0].code, ErrorCode::E0002);
    assert_eq!(c.errors[0].message, "cannot apply `Add` to type `Bool`");
    assert_eq!(c.check_binop_types(Ty::I32, BinOp::Lt, Ty::Bool), Ty::Bool);
    assert_eq!(c.errors[1].message, "type mismatch in comparison operands: expected `I32`, got `Bool`");
    assert_eq!(c.check_binop_types(Ty::I32, BinOp::And, Ty::Bool), Ty::Bool);
    assert_eq!(c.errors[2].message, "logical `And` expects Bool, got `I32`");
    assert_eq!(c.check_binop_types(Ty::Str, BinOp::BitAnd, Ty::Bool), Ty::Str);
    assert_eq!(c.errors[3].message, "bitwise `BitAnd` expects integer type, got `Str`");
    assert_eq!(c.errors[4].message, "bitwise `BitAnd` expects integer type, got `Bool`");
    assert_eq!(c.errors.len(), 5);
}
