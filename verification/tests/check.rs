use std::rc::Rc;

use sporec_typeck::ast::{Expr, MatchArm, Pattern, TypeExpr};
use sporec_typeck::check::Checker;
use sporec_typeck::effect_set::EffectSet;
use sporec_typeck::error::ErrorCode;
use sporec_typeck::types::Ty;

fn checker() -> Checker {
    Checker::new()
}

fn checker_with_effects(effects: Vec<&str>) -> Checker {
    let mut c = Checker::new();
    c.current_function = "test_fn".into();
    for e in effects {
        c.current_effects.insert(e.into());
    }
    c
}

// ── check_effect_propagation ────────────────────────────────────

#[test]
fn effect_propagation_ok_when_covered() {
    let mut c = checker_with_effects(vec!["IO", "NetConnect"]);
    c.check_effect_propagation(&{
        let mut s = EffectSet::new();
        s.insert("IO".into());
        s
    });
    assert!(c.errors.is_empty());
}

#[test]
fn effect_propagation_fails_when_missing() {
    let mut c = checker_with_effects(vec!["NetConnect"]);
    c.check_effect_propagation(&{
        let mut s = EffectSet::new();
        s.insert("IO".into());
        s
    });
    assert_eq!(c.errors.len(), 1);
    assert!(c.errors[0].message.contains("IO"));
}

#[test]
fn effect_propagation_empty_callee_ok() {
    let mut c = checker_with_effects(vec![]);
    c.check_effect_propagation(&EffectSet::new());
    assert!(c.errors.is_empty());
}

#[test]
fn effect_propagation_multiple_missing() {
    let mut c = checker_with_effects(vec![]);
    let mut required = EffectSet::new();
    required.insert("IO".into());
    required.insert("NetConnect".into());
    c.check_effect_propagation(&required);
    assert_eq!(c.errors.len(), 1);
    assert!(c.errors[0].message.contains("IO"));
    assert!(c.errors[0].message.contains("NetConnect"));
}

// ── resolve_type ────────────────────────────────────────────────

#[test]
fn resolve_primitives() {
    let mut c = checker();
    assert_eq!(c.resolve_type(&TypeExpr::Named("I32".into())), Ty::I32);
    assert_eq!(c.resolve_type(&TypeExpr::Named("Bool".into())), Ty::Bool);
    assert_eq!(c.resolve_type(&TypeExpr::Named("Str".into())), Ty::Str);
    assert_eq!(c.resolve_type(&TypeExpr::Named("Never".into())), Ty::Never);
    assert_eq!(c.resolve_type(&TypeExpr::Named("F64".into())), Ty::F64);
}

#[test]
fn resolve_unknown_named_type() {
    let mut c = checker();
    assert_eq!(
        c.resolve_type(&TypeExpr::Named("Foo".into())),
        Ty::Named("Foo".into())
    );
}

#[test]
fn resolve_type_alias() {
    let mut c = checker();
    c.registry.type_aliases.insert("Port".into(), Ty::I32);
    assert_eq!(c.resolve_type(&TypeExpr::Named("Port".into())), Ty::I32);
}

#[test]
fn resolve_generic_type() {
    let mut c = checker();
    let te = TypeExpr::Generic("List".into(), vec![TypeExpr::Named("I32".into())]);
    assert_eq!(c.resolve_type(&te), Ty::App("List".into(), vec![Ty::I32]));
}

#[test]
fn resolve_empty_tuple_is_unit() {
    let mut c = checker();
    assert_eq!(c.resolve_type(&TypeExpr::Tuple(vec![])), Ty::Unit);
}

#[test]
fn resolve_non_empty_tuple() {
    let mut c = checker();
    let te = TypeExpr::Tuple(vec![
        TypeExpr::Named("I32".into()),
        TypeExpr::Named("Bool".into()),
    ]);
    assert_eq!(c.resolve_type(&te), Ty::Tuple(vec![Ty::I32, Ty::Bool]));
}

#[test]
fn resolve_function_type() {
    let mut c = checker();
    let te = TypeExpr::Function(
        vec![TypeExpr::Named("I32".into())],
        Box::new(TypeExpr::Named("Bool".into())),
        vec![],
    );
    let resolved = c.resolve_type(&te);
    match resolved {
        Ty::Fn(params, ret, effects) => {
            assert_eq!(params, vec![Ty::I32]);
            assert_eq!(*ret, Ty::Bool);
            assert!(effects.is_empty());
        }
        other => panic!("expected Fn, got {}", other.to_string()),
    }
}

#[test]
fn resolve_hole_produces_fresh_var() {
    let mut c = checker();
    let v1 = c.resolve_type(&TypeExpr::Hole(None));
    let v2 = c.resolve_type(&TypeExpr::Hole(None));
    assert_ne!(v1, v2, "each hole should produce a distinct type variable");
}

// ── fresh_var ───────────────────────────────────────────────────

#[test]
fn fresh_var_increments() {
    let mut c = checker();
    let v0 = c.fresh_var();
    let v1 = c.fresh_var();
    assert_eq!(v0, Ty::Var(0));
    assert_eq!(v1, Ty::Var(1));
}

// ── apply_subst ─────────────────────────────────────────────────

#[test]
fn apply_subst_resolves_chain() {
    let mut c = checker();
    c.substitution.insert(0, Ty::Var(1));
    c.substitution.insert(1, Ty::I32);
    assert_eq!(c.apply_subst(&Ty::Var(0)), Ty::I32);
}

#[test]
fn apply_subst_leaves_unbound_var() {
    let c = checker();
    assert_eq!(c.apply_subst(&Ty::Var(99)), Ty::Var(99));
}

#[test]
fn apply_subst_through_app() {
    let mut c = checker();
    c.substitution.insert(0, Ty::I32);
    let ty = Ty::App("List".into(), vec![Ty::Var(0)]);
    assert_eq!(c.apply_subst(&ty), Ty::App("List".into(), vec![Ty::I32]));
}

// ── occurs_in ───────────────────────────────────────────────────

#[test]
fn occurs_in_direct() {
    let c = checker();
    assert!(c.occurs_in(0, &Ty::Var(0)));
}

#[test]
fn occurs_in_nested() {
    let c = checker();
    let ty = Ty::App("List".into(), vec![Ty::Var(0)]);
    assert!(c.occurs_in(0, &ty));
}

#[test]
fn occurs_in_absent() {
    let c = checker();
    let ty = Ty::App("List".into(), vec![Ty::Var(1)]);
    assert!(!c.occurs_in(0, &ty));
}

#[test]
fn occurs_in_resolves_substitution() {
    let mut c = checker();
    c.substitution
        .insert(0, Ty::App("List".into(), vec![Ty::Var(1)]));
    assert!(c.occurs_in(1, &Ty::Var(0)));
}

// ── instantiate_sig ─────────────────────────────────────────────

#[test]
fn instantiate_sig_creates_fresh_vars() {
    let mut c = checker();
    let params = vec![Ty::Named("T".into())];
    let ret = Ty::Named("T".into());
    let (new_params, new_ret, mapping) = c.instantiate_sig(&["T".into()], &params, &ret);
    // Both should be the same fresh var
    assert_eq!(new_params[0], new_ret);
    match &new_params[0] {
        Ty::Var(_) => {} // ok
        other => panic!("expected Var, got {}", other.to_string()),
    }
    assert!(mapping.contains_key("T"));
}

// ── bound_target_names ──────────────────────────────────────────

#[test]
fn bound_target_names_primitives() {
    let c = checker();
    assert_eq!(c.bound_target_names(&Ty::I32), vec!["I32"]);
    assert_eq!(c.bound_target_names(&Ty::Bool), vec!["Bool"]);
    assert_eq!(c.bound_target_names(&Ty::Str), vec!["Str"]);
}

#[test]
fn bound_target_names_refined() {
    let c = checker();
    let refined = Ty::Refined(Box::new(Ty::I32), "x".into(), Rc::new(Expr::BoolLit(true)));
    assert_eq!(c.bound_target_names(&refined), vec!["I32"]);
}

#[test]
fn bound_target_names_named() {
    let c = checker();
    assert_eq!(c.bound_target_names(&Ty::Named("Foo".into())), vec!["Foo"]);
}

#[test]
fn bound_target_names_app() {
    let c = checker();
    assert_eq!(
        c.bound_target_names(&Ty::App("List".into(), vec![Ty::I32])),
        vec!["List"]
    );
}

// ── further cases ───────────────────────────────────────────────

#[test]
fn generic_alias_is_instantiated_and_checked_for_arity() {
    let mut c = checker();
    c.registry.generic_type_aliases.insert(
        "Pair".into(),
        (vec!["A".into()], Ty::Tuple(vec![Ty::Named("A".into()), Ty::Named("A".into())])),
    );
    let te = TypeExpr::Generic("Pair".into(), vec![TypeExpr::Named("I64".into())]);
    assert_eq!(c.resolve_type(&te), Ty::Tuple(vec![Ty::I64, Ty::I64]));
    assert!(c.errors.is_empty());
    let wrong = TypeExpr::Generic(
        "Pair".into(),
        vec![TypeExpr::Named("I64".into()), TypeExpr::Named("Bool".into())],
    );
    assert_eq!(c.resolve_type(&wrong), Ty::Error);
    assert_eq!(c.errors.len(), 1);
    assert_eq!(c.errors[0].code, ErrorCode::E0002);
    assert_eq!(c.errors[0].message, "type alias `Pair` expects 1 type arguments, got 2");
}

#[test]
fn refinement_keeps_its_predicate_and_holes_count_up() {
    let mut c = checker();
    let pred = Rc::new(Expr::BoolLit(false));
    let te = TypeExpr::Refinement(Box::new(TypeExpr::Hole(None)), "n".into(), pred.clone());
    match c.resolve_type(&te) {
        Ty::Refined(base, var, p) => {
            assert_eq!(*base, Ty::Var(0));
            assert_eq!(var, "n");
            assert_eq!(*p, Expr::BoolLit(false));
        }
        other => panic!("expected a refinement, got {}", other.to_string()),
    }
    assert_eq!(c.fresh_var(), Ty::Var(1));
}

#[test]
fn missing_effects_are_listed_in_order() {
    let mut c = checker_with_effects(vec!["Console"]);
    let mut required = EffectSet::new();
    required.insert("Net".into());
    required.insert("Console".into());
    required.insert("Clock".into());
    c.check_effect_propagation(&required);
    assert_eq!(c.errors[0].code, ErrorCode::F0001);
    assert_eq!(
        c.errors[0].message,
        "missing effects [Clock, Net]: caller does not declare them"
    );
}

#[test]
fn observers_collect_effects() {
    let mut c = checker_with_effects(vec!["IO"]);
    c.push_effect_observer();
    let mut s = EffectSet::new();
    s.insert("IO".into());
    c.check_effect_propagation(&s);
    c.observe_effect("Clock".into());
    let seen = c.pop_effect_observer();
    assert!(seen.contains("IO"));
    assert!(seen.contains("Clock"));
    assert!(c.pop_effect_observer().is_empty());
}

#[test]
fn unresolved_vars_and_substitution_inside_records() {
    let mut c = checker();
    let rec = Ty::Record(vec![("x".into(), Ty::Var(3)), ("y".into(), Ty::I32)]);
    assert!(c.has_unresolved_type_var(&rec));
    c.substitution.insert(3, Ty::Bool);
    let applied = c.apply_subst(&rec);
    assert_eq!(applied, Ty::Record(vec![("x".into(), Ty::Bool), ("y".into(), Ty::I32)]));
    assert!(!c.has_unresolved_type_var(&applied));
    assert!(c.bound_target_names(&rec).is_empty());
}

// ── unify ───────────────────────────────────────────────────────

#[test]
fn unify_same_primitives() {
    let mut c = checker();
    c.unify(&Ty::I32, &Ty::I32, "test");
    assert!(c.errors.is_empty());
}

#[test]
fn unify_mismatch_primitives() {
    let mut c = checker();
    c.unify(&Ty::I32, &Ty::Bool, "test");
    assert_eq!(c.errors.len(), 1);
    assert!(c.errors[0].message.contains("I32"));
    assert!(c.errors[0].message.contains("Bool"));
}

#[test]
fn unify_unit_with_empty_tuple() {
    let mut c = checker();
    c.unify(&Ty::Unit, &Ty::Tuple(vec![]), "test");
    assert!(c.errors.is_empty());
}

#[test]
fn unify_never_with_anything() {
    let mut c = checker();
    c.unify(&Ty::I32, &Ty::Never, "test");
    assert!(c.errors.is_empty());
}

#[test]
fn unify_hole_skips() {
    let mut c = checker();
    c.unify(&Ty::Hole("x".into()), &Ty::I32, "test");
    assert!(c.errors.is_empty());
}

#[test]
fn unify_error_sentinel_skips() {
    let mut c = checker();
    c.unify(&Ty::Error, &Ty::I32, "test");
    assert!(c.errors.is_empty());
}

#[test]
fn unify_type_var_binds() {
    let mut c = checker();
    c.unify(&Ty::Var(0), &Ty::I32, "test");
    assert!(c.errors.is_empty());
    assert_eq!(c.substitution.get(&0), Some(&Ty::I32));
}

#[test]
fn unify_type_var_occurs_check() {
    let mut c = checker();
    // Var(0) occurs in App("List", [Var(0)])
    let ty = Ty::App("List".into(), vec![Ty::Var(0)]);
    c.unify(&Ty::Var(0), &ty, "test");
    assert_eq!(c.errors.len(), 1);
    assert!(c.errors[0].message.contains("infinite type"));
}

#[test]
fn unify_fn_same_arity() {
    let mut c = checker();
    let f1 = Ty::Fn(vec![Ty::I32], Box::new(Ty::Bool), EffectSet::new());
    let f2 = Ty::Fn(vec![Ty::I32], Box::new(Ty::Bool), EffectSet::new());
    c.unify(&f1, &f2, "test");
    assert!(c.errors.is_empty());
}

#[test]
fn unify_fn_mismatch_arity() {
    let mut c = checker();
    let f1 = Ty::Fn(vec![Ty::I32], Box::new(Ty::Bool), EffectSet::new());
    let f2 = Ty::Fn(vec![Ty::I32, Ty::I32], Box::new(Ty::Bool), EffectSet::new());
    c.unify(&f1, &f2, "test");
    assert_eq!(c.errors.len(), 1);
}

#[test]
fn unify_fn_effect_mismatch() {
    let mut c = checker();
    let mut callee_effects = EffectSet::new();
    callee_effects.insert("IO".into());
    let f1 = Ty::Fn(vec![], Box::new(Ty::Unit), EffectSet::new());
    let f2 = Ty::Fn(vec![], Box::new(Ty::Unit), callee_effects);
    c.unify(&f1, &f2, "test");
    assert_eq!(c.errors.len(), 1);
    assert!(c.errors[0].message.contains("IO"));
}

#[test]
fn unify_tuple_same_length() {
    let mut c = checker();
    let t1 = Ty::Tuple(vec![Ty::I32, Ty::Bool]);
    let t2 = Ty::Tuple(vec![Ty::I32, Ty::Bool]);
    c.unify(&t1, &t2, "test");
    assert!(c.errors.is_empty());
}

#[test]
fn unify_outcome_requires_an_outcome_on_both_sides() {
    let mut c = checker();
    let outcome = Ty::Outcome(Box::new(Ty::I32), Box::new(Ty::Str));
    c.unify(&outcome, &Ty::I32, "test");
    assert_eq!(c.errors.len(), 1);
}

#[test]
fn unify_tuple_mismatch_length() {
    let mut c = checker();
    let t1 = Ty::Tuple(vec![Ty::I32]);
    let t2 = Ty::Tuple(vec![Ty::I32, Ty::Bool]);
    c.unify(&t1, &t2, "test");
    assert_eq!(c.errors.len(), 1);
}

#[test]
fn unify_app_same_name_and_args() {
    let mut c = checker();
    let a = Ty::App("List".into(), vec![Ty::I32]);
    let b = Ty::App("List".into(), vec![Ty::I32]);
    c.unify(&a, &b, "test");
    assert!(c.errors.is_empty());
}

#[test]
fn unify_app_different_name() {
    let mut c = checker();
    let a = Ty::App("List".into(), vec![Ty::I32]);
    let b = Ty::App("Set".into(), vec![Ty::I32]);
    c.unify(&a, &b, "test");
    assert_eq!(c.errors.len(), 1);
}

#[test]
fn unify_record_missing_field() {
    let mut c = checker();
    let expected = Ty::Record(vec![("x".into(), Ty::I32), ("y".into(), Ty::I32)]);
    let actual = Ty::Record(vec![("x".into(), Ty::I32)]);
    c.unify(&expected, &actual, "test");
    assert_eq!(c.errors.len(), 1);
    assert!(c.errors[0].message.contains("y"));
}

#[test]
fn unify_refined_strips_refinement() {
    let mut c = checker();
    let refined = Ty::Refined(Box::new(Ty::I32), "x".into(), Rc::new(Expr::BoolLit(true)));
    c.unify(&refined, &Ty::I32, "test");
    assert!(c.errors.is_empty());
}

#[test]
fn unify_applies_substitution() {
    let mut c = checker();
    c.substitution.insert(0, Ty::I32);
    // Var(0) should resolve to I32 via substitution
    c.unify(&Ty::Var(0), &Ty::I32, "test");
    assert!(c.errors.is_empty());
}

#[test]
fn unify_messages_are_exact() {
    let mut c = checker();
    c.unify(&Ty::I32, &Ty::Bool, "argument 1");
    assert_eq!(c.errors[0].code, ErrorCode::E0001);
    assert_eq!(c.errors[0].message, "type mismatch in argument 1: expected `I32`, got `Bool`");
    let ty = Ty::App("List".into(), vec![Ty::Var(4)]);
    c.unify(&ty, &Ty::Var(4), "let");
    assert_eq!(c.errors[1].code, ErrorCode::E0003);
    assert_eq!(c.errors[1].message, "infinite type: ?T4 occurs in `List[?T4]`");
    let mut io = EffectSet::new();
    io.insert("IO".into());
    io.insert("Clock".into());
    let f1 = Ty::Fn(vec![], Box::new(Ty::Unit), EffectSet::new());
    let f2 = Ty::Fn(vec![], Box::new(Ty::Unit), io);
    c.unify(&f1, &f2, "call");
    assert_eq!(c.errors[2].code, ErrorCode::F0001);
    assert_eq!(
        c.errors[2].message,
        "function effect mismatch in call: expected `() -> ()` but got `() -> () uses [Clock, IO]` requiring effects [Clock, IO]"
    );
}

#[test]
fn unify_binds_through_structure_and_refinements() {
    let mut c = checker();
    let pred = Rc::new(Expr::BoolLit(true));
    let expected = Ty::App("Map".into(), vec![Ty::Var(0), Ty::Var(1)]);
    let actual = Ty::App(
        "Map".into(),
        vec![Ty::Str, Ty::Refined(Box::new(Ty::I64), "v".into(), pred.clone())],
    );
    c.unify(&expected, &actual, "test");
    assert!(c.errors.is_empty());
    assert_eq!(c.apply_subst(&Ty::Var(0)), Ty::Str);
    assert_eq!(
        c.apply_subst(&Ty::Var(1)),
        Ty::Refined(Box::new(Ty::I64), "v".into(), pred)
    );
    // A record unifies each expected field with the first actual field of
    // that name.
    let rec_e = Ty::Record(vec![("a".into(), Ty::Var(2))]);
    let rec_a = Ty::Record(vec![("a".into(), Ty::Bool), ("a".into(), Ty::I8)]);
    c.unify(&rec_e, &rec_a, "record");
    assert!(c.errors.is_empty());
    assert_eq!(c.apply_subst(&Ty::Var(2)), Ty::Bool);
}

// ── exhaustiveness ──────────────────────────────────────────────

fn arm(pattern: Pattern) -> MatchArm {
    MatchArm { pattern, guard: None, body: Expr::IntLit(0) }
}

fn checker_with_shape() -> Checker {
    let mut c = checker();
    c.registry.types.insert(
        "Shape".into(),
        vec![
            ("Circle".into(), vec![Ty::F64]),
            ("Square".into(), vec![Ty::F64]),
            ("Empty".into(), vec![]),
        ],
    );
    c
}

#[test]
fn exhaustive_sum_type_match_is_accepted() {
    let mut c = checker_with_shape();
    let arms = vec![
        arm(Pattern::Constructor("Circle".into(), vec![Pattern::Wildcard])),
        arm(Pattern::Or(vec![
            Pattern::Constructor("Square".into(), vec![Pattern::Wildcard]),
            Pattern::Var("Empty".into()),
        ])),
    ];
    c.check_exhaustiveness(&Ty::Named("Shape".into()), &arms);
    assert!(c.errors.is_empty());
}

#[test]
fn missing_variants_are_listed_in_declaration_order() {
    let mut c = checker_with_shape();
    let arms = vec![arm(Pattern::Constructor("Square".into(), vec![Pattern::Wildcard]))];
    c.check_exhaustiveness(&Ty::Named("Shape".into()), &arms);
    assert_eq!(c.errors.len(), 1);
    assert_eq!(c.errors[0].code, ErrorCode::E0010);
    assert_eq!(
        c.errors[0].message,
        "non-exhaustive match on `Shape`: missing variant(s) Circle, Empty"
    );
    c.check_exhaustiveness(&Ty::App("Shape".into(), vec![Ty::I32]), &arms);
    assert_eq!(
        c.errors[1].message,
        "non-exhaustive match on `Shape[I32]`: missing variant(s) Circle, Empty"
    );
}

#[test]
fn variable_naming_a_unit_variant_is_not_a_catch_all() {
    let mut c = checker_with_shape();
    assert_eq!(c.find_unit_variant("Empty"), Some("Shape".to_string()));
    assert_eq!(c.find_unit_variant("Circle"), None);
    // `Empty` names a unit variant, so it covers only that variant.
    c.check_exhaustiveness(&Ty::Named("Shape".into()), &[arm(Pattern::Var("Empty".into()))]);
    assert_eq!(c.errors.len(), 1);
    // `other` names no variant: it matches everything.
    c.check_exhaustiveness(&Ty::Named("Shape".into()), &[arm(Pattern::Var("other".into()))]);
    assert_eq!(c.errors.len(), 1);
    // A guarded wildcard does not count as a catch-all.
    let guarded = MatchArm { pattern: Pattern::Wildcard, guard: Some(Expr::BoolLit(true)), body: Expr::IntLit(0) };
    c.check_exhaustiveness(&Ty::I64, &[guarded]);
    assert_eq!(
        c.errors[1].message,
        "non-exhaustive match: `I64` requires a wildcard `_` or variable pattern"
    );
}

#[test]
fn boolean_matches_need_both_literals() {
    let mut c = checker();
    c.check_exhaustiveness(&Ty::Bool, &[arm(Pattern::BoolLit(true))]);
    assert_eq!(c.errors[0].message, "non-exhaustive match: missing pattern(s) false");
    c.check_exhaustiveness(&Ty::Bool, &[arm(Pattern::IntLit(1))]);
    assert_eq!(c.errors[1].message, "non-exhaustive match: missing pattern(s) true, false");
    c.check_exhaustiveness(
        &Ty::Bool,
        &[arm(Pattern::Or(vec![Pattern::BoolLit(false), Pattern::BoolLit(true)]))],
    );
    assert_eq!(c.errors.len(), 2);
    // Error types and unknown names are not checked.
    c.check_exhaustiveness(&Ty::Error, &[]);
    c.check_exhaustiveness(&Ty::Named("Unknown".into()), &[]);
    assert_eq!(c.errors.len(), 2);
}
