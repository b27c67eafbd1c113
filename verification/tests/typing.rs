use sporec_typeck::ast::{Expr, UnaryOp};
use sporec_typeck::effect_set::EffectSet;
use sporec_typeck::check::Checker;
use sporec_typeck::error::ErrorCode;
use sporec_typeck::types::Ty;

#[test]
fn negation_keeps_numeric_types_and_rejects_others() {
    let mut c = Checker::new();
    assert_eq!(c.check_unary_types(UnaryOp::Neg, Ty::F64), Ty::F64);
    assert!(c.errors.is_empty());
    assert_eq!(c.check_unary_types(UnaryOp::Neg, Ty::Str), Ty::Str);
    assert_eq!(c.errors.len(), 1);
    assert_eq!(c.errors[0].code, ErrorCode::E0002);
    assert_eq!(c.errors[0].message, "cannot negate type `Str`");
}

#[test]
fn logical_not_gives_bool() {
    let mut c = Checker::new();
    assert_eq!(c.check_unary_types(UnaryOp::Not, Ty::Bool), Ty::Bool);
    assert!(c.errors.is_empty());
    assert_eq!(c.check_unary_types(UnaryOp::Not, Ty::I64), Ty::Bool);
    assert_eq!(c.errors[0].message, "cannot apply `!` to type `I64`");
    // The error type passes silently.
    assert_eq!(c.check_unary_types(UnaryOp::BitNot, Ty::Error), Ty::Error);
    assert_eq!(c.errors.len(), 1);
}

#[test]
fn bitwise_not_needs_an_integer() {
    let mut c = Checker::new();
    assert_eq!(c.check_unary_types(UnaryOp::BitNot, Ty::U8), Ty::U8);
    assert!(c.errors.is_empty());
    assert_eq!(c.check_unary_types(UnaryOp::BitNot, Ty::F32), Ty::F32);
    assert_eq!(c.errors[0].message, "cannot apply `~` to type `F32`");
}

#[test]
fn if_condition_must_be_bool() {
    let mut c = Checker::new();
    c.check_condition_type(&Ty::Bool);
    c.check_condition_type(&Ty::Error);
    assert!(c.errors.is_empty());
    c.check_condition_type(&Ty::I64);
    assert_eq!(c.errors.len(), 1);
    assert_eq!(c.errors[0].code, ErrorCode::E0001);
    assert_eq!(c.errors[0].message, "if condition must be Bool, got `I64`");
}

#[test]
fn if_without_else_is_unit() {
    let mut c = Checker::new();
    assert_eq!(c.if_result_type(Ty::Unit, None), Ty::Unit);
    assert!(c.errors.is_empty());
    assert_eq!(c.if_result_type(Ty::I64, None), Ty::Unit);
    assert_eq!(c.errors.len(), 1);
    assert_eq!(c.errors[0].code, ErrorCode::E0001);
}

#[test]
fn if_with_else_merges_branches() {
    let mut c = Checker::new();
    assert_eq!(c.if_result_type(Ty::Never, Some(Ty::Str)), Ty::Str);
    assert_eq!(c.if_result_type(Ty::I64, Some(Ty::I64)), Ty::I64);
    assert!(c.errors.is_empty());
}

#[test]
fn question_mark_unwraps_outcome_success() {
    let mut c = Checker::new();
    let outcome = Ty::Outcome(Box::new(Ty::I64), Box::new(Ty::Named("IoError".to_string())));
    let enclosing = Ty::Named("IoError".to_string());
    assert_eq!(c.check_try_type(&outcome, Some(&enclosing)), Ty::I64);
    assert!(c.errors.is_empty());
}

#[test]
fn question_mark_failure_must_match_enclosing() {
    let mut c = Checker::new();
    let outcome = Ty::Outcome(Box::new(Ty::I64), Box::new(Ty::Named("IoError".to_string())));
    let enclosing = Ty::Named("ParseError".to_string());
    assert_eq!(c.check_try_type(&outcome, Some(&enclosing)), Ty::I64);
    assert_eq!(c.errors.len(), 1);
    assert_eq!(c.errors[0].code, ErrorCode::E0001);
}

#[test]
fn question_mark_needs_enclosing_outcome_and_outcome_value() {
    let mut c = Checker::new();
    let outcome = Ty::Outcome(Box::new(Ty::Str), Box::new(Ty::I64));
    assert_eq!(c.check_try_type(&outcome, None), Ty::Str);
    assert_eq!(c.errors[0].code, ErrorCode::E0012);
    assert_eq!(
        c.errors[0].message,
        "`?` requires an enclosing outcome return type such as `A ! E`"
    );
    assert_eq!(c.check_try_type(&Ty::Bool, None), Ty::Error);
    assert_eq!(c.errors[1].message, "`?` expects an outcome value, got `Bool`");
    assert_eq!(c.check_try_type(&Ty::Error, None), Ty::Error);
    assert_eq!(c.errors.len(), 2);
}

#[test]
fn question_mark_sees_through_bound_variables() {
    let mut c = Checker::new();
    let v = c.fresh_var();
    let outcome = Ty::Outcome(Box::new(Ty::Bool), Box::new(Ty::Str));
    c.unify(&v, &outcome, "binding");
    assert_eq!(c.check_try_type(&v, Some(&Ty::Str)), Ty::Bool);
    assert!(c.errors.is_empty());
}

fn checker_declaring(errors: Vec<&str>) -> Checker {
    let mut c = Checker::new();
    c.current_function = "load".to_string();
    c.current_errors = EffectSet::from_names(errors.into_iter().map(|e| e.to_string()).collect());
    c
}

#[test]
fn thrown_error_names_come_from_capitalised_shapes() {
    let c = Checker::new();
    let var = Expr::Var("NotFound".to_string());
    assert_eq!(c.infer_thrown_error_name(&var), Some("NotFound".to_string()));
    let call = Expr::Call(Box::new(Expr::Var("IoError".to_string())), vec![Expr::IntLit(2)]);
    assert_eq!(c.infer_thrown_error_name(&call), Some("IoError".to_string()));
    let lit = Expr::StructLit("ParseError".to_string(), vec![]);
    assert_eq!(c.infer_thrown_error_name(&lit), Some("ParseError".to_string()));
    assert_eq!(c.infer_thrown_error_name(&Expr::Var("err".to_string())), None);
    assert_eq!(c.infer_thrown_error_name(&Expr::IntLit(1)), None);
}

#[test]
fn throw_without_error_set_is_reported() {
    let mut c = checker_declaring(vec![]);
    c.check_throw_coverage(&Expr::Var("IoError".to_string()));
    assert_eq!(c.errors.len(), 1);
    assert_eq!(c.errors[0].code, ErrorCode::E0012);
    assert_eq!(c.errors[0].message, "`throw` in `load` requires declaring an error set with `! E`");
}

#[test]
fn throw_must_name_a_declared_error() {
    let mut c = checker_declaring(vec!["IoError"]);
    c.check_throw_coverage(&Expr::Var("IoError".to_string()));
    c.check_throw_coverage(&Expr::Var("e".to_string()));
    assert!(c.errors.is_empty());
    c.check_throw_coverage(&Expr::StructLit("ParseError".to_string(), vec![]));
    assert_eq!(c.errors.len(), 1);
    assert_eq!(c.errors[0].message, "thrown error `ParseError` is not declared in `load` error set");
}

#[test]
fn callee_errors_must_be_declared_by_the_caller() {
    let mut c = checker_declaring(vec!["IoError"]);
    c.check_error_propagation(&EffectSet::from_names(vec!["IoError".to_string()]));
    assert!(c.errors.is_empty());
    c.check_error_propagation(&EffectSet::from_names(vec![
        "TimeoutError".to_string(),
        "IoError".to_string(),
        "ParseError".to_string(),
    ]));
    assert_eq!(c.errors.len(), 1);
    assert_eq!(c.errors[0].code, ErrorCode::E0012);
    assert_eq!(
        c.errors[0].message,
        "missing errors [ParseError, TimeoutError] in `?`: caller does not declare them in its error set"
    );
}
