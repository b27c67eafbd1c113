use std::collections::HashSet;

use sporec_typeck::check::Checker;
use sporec_typeck::effect_set::EffectSet;
use sporec_typeck::types::Ty;

fn checker_with_functions() -> Checker {
    let mut c = Checker::new();
    c.registry.functions.insert("zeta".into(), (vec![], Ty::I32, EffectSet::new()));
    c.registry.functions.insert("alpha".into(), (vec![Ty::Str], Ty::I32, EffectSet::new()));
    c.registry.functions.insert("name".into(), (vec![], Ty::Str, EffectSet::new()));
    c.registry.functions.insert("me".into(), (vec![], Ty::I32, EffectSet::new()));
    c.current_function = "me".into();
    c
}

#[test]
fn suggestions_are_functions_returning_the_type() {
    let c = checker_with_functions();
    assert_eq!(c.find_suggestions(&Ty::I32, None), vec!["alpha", "zeta"]);
    assert_eq!(c.find_suggestions(&Ty::Str, None), vec!["name"]);
    assert!(c.find_suggestions(&Ty::Bool, None).is_empty());
}

#[test]
fn suggestions_respect_the_allow_list() {
    let c = checker_with_functions();
    let allowed = vec!["zeta".to_string(), "name".to_string()];
    assert_eq!(c.find_suggestions(&Ty::I32, Some(&allowed)), vec!["zeta"]);
    assert!(c.find_suggestions(&Ty::I32, Some(&[])).is_empty());
}

#[test]
fn no_suggestions_for_errors_and_holes() {
    let c = checker_with_functions();
    assert!(c.find_suggestions(&Ty::Error, None).is_empty());
    assert!(c.find_suggestions(&Ty::Hole("h".into()), None).is_empty());
}

#[test]
fn type_variables_follow_bindings() {
    let mut c = Checker::new();
    let a = c.fresh_var();
    let _b = c.fresh_var();
    let _d = c.fresh_var();
    // ?T0 := List[?T1]
    c.unify(&a, &Ty::App("List".into(), vec![Ty::Var(1)]), "test");
    let vars = c.collect_type_vars(&Ty::Tuple(vec![Ty::Var(0), Ty::Var(2), Ty::I32]));
    let expected: HashSet<u32> = [0, 1, 2].into_iter().collect();
    assert_eq!(vars, expected);
    assert!(c.collect_type_vars(&Ty::Str).is_empty());
}
