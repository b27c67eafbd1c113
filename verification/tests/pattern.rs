use sporec_typeck::ast::Pattern;
use sporec_typeck::check::Checker;
use sporec_typeck::error::ErrorCode;
use sporec_typeck::types::Ty;

fn checker_with_types() -> Checker {
    let mut c = Checker::new();
    c.registry.types.insert(
        "Color".into(),
        vec![("Red".into(), vec![]), ("Green".into(), vec![])],
    );
    c.registry.types.insert(
        "Option".into(),
        vec![("Some".into(), vec![Ty::Named("T".into())]), ("None".into(), vec![])],
    );
    c.registry.type_type_params.insert("Option".into(), vec!["T".into()]);
    c.registry.structs.insert(
        "Point".into(),
        vec![("x".into(), Ty::I32), ("y".into(), Ty::I32)],
    );
    c.registry.structs.insert(
        "Boxed".into(),
        vec![("item".into(), Ty::Named("A".into()))],
    );
    c.registry.struct_type_params.insert("Boxed".into(), vec!["A".into()]);
    c
}

fn var(name: &str) -> Pattern {
    Pattern::Var(name.into())
}

#[test]
fn wildcard_and_variable_patterns() {
    let mut c = checker_with_types();
    assert!(c.check_pattern(&Pattern::Wildcard, &Ty::I32).is_empty());
    let b = c.check_pattern(&var("x"), &Ty::Str);
    assert_eq!(b, vec![("x".to_string(), Ty::Str)]);
    assert!(c.errors.is_empty());
}

#[test]
fn variable_naming_a_unit_variant_binds_nothing() {
    let mut c = checker_with_types();
    let b = c.check_pattern(&var("Red"), &Ty::Named("Color".into()));
    assert!(b.is_empty());
    assert!(c.errors.is_empty());
    // A variant with fields named alone binds the name.
    let b = c.check_pattern(&var("Some"), &Ty::App("Option".into(), vec![Ty::I32]));
    assert_eq!(b.len(), 1);
}

#[test]
fn literal_patterns_must_fit_the_type() {
    let mut c = checker_with_types();
    c.check_pattern(&Pattern::IntLit(1), &Ty::U8);
    c.check_pattern(&Pattern::StrLit("a".into()), &Ty::Str);
    c.check_pattern(&Pattern::BoolLit(true), &Ty::Bool);
    c.check_pattern(&Pattern::IntLit(1), &Ty::Error);
    assert!(c.errors.is_empty());
    c.check_pattern(&Pattern::IntLit(1), &Ty::Str);
    c.check_pattern(&Pattern::StrLit("a".into()), &Ty::I32);
    c.check_pattern(&Pattern::BoolLit(false), &Ty::Named("Color".into()));
    assert_eq!(c.errors.len(), 3);
    assert!(c.errors.iter().all(|e| e.code == ErrorCode::E0011));
    assert_eq!(c.errors[0].message, "integer pattern cannot match type `Str`");
    assert_eq!(c.errors[1].message, "string pattern cannot match type `I32`");
    assert_eq!(c.errors[2].message, "boolean pattern cannot match type `Color`");
}

#[test]
fn generic_variant_fields_are_instantiated() {
    let mut c = checker_with_types();
    let p = Pattern::Constructor("Some".into(), vec![var("v")]);
    let b = c.check_pattern(&p, &Ty::App("Option".into(), vec![Ty::Bool]));
    assert_eq!(b, vec![("v".to_string(), Ty::Bool)]);
    assert!(c.errors.is_empty());
}

#[test]
fn variant_found_by_name_unifies_its_type() {
    let mut c = checker_with_types();
    let scrutinee = c.fresh_var();
    let p = Pattern::Constructor("Some".into(), vec![var("v")]);
    let b = c.check_pattern(&p, &scrutinee);
    // `T` gets the next fresh variable; the scrutinee is bound to `Option[?T1]`.
    assert_eq!(b, vec![("v".to_string(), Ty::Var(1))]);
    assert_eq!(
        c.apply_subst(&scrutinee),
        Ty::App("Option".into(), vec![Ty::Var(1)])
    );
    assert!(c.errors.is_empty());
}

#[test]
fn variant_pattern_errors() {
    let mut c = checker_with_types();
    let p = Pattern::Constructor("Some".into(), vec![var("a"), var("b")]);
    let b = c.check_pattern(&p, &Ty::App("Option".into(), vec![Ty::I32]));
    assert_eq!(b, vec![("a".to_string(), Ty::I32)]);
    assert_eq!(c.errors[0].code, ErrorCode::E0007);
    assert_eq!(c.errors[0].message, "variant `Some` expects 1 fields, got 2");
    c.check_pattern(&Pattern::Constructor("Nope".into(), vec![]), &Ty::I32);
    assert_eq!(c.errors[1].code, ErrorCode::E0006);
    assert_eq!(c.errors[1].message, "unknown variant `Nope`");
    c.check_pattern(&Pattern::Constructor("Nope".into(), vec![]), &Ty::Error);
    assert_eq!(c.errors.len(), 2);
}

#[test]
fn struct_patterns_bind_their_fields() {
    let mut c = checker_with_types();
    let p = Pattern::Struct("Point".into(), vec![("y".into(), var("py"))]);
    let b = c.check_pattern(&p, &Ty::Named("Point".into()));
    assert_eq!(b, vec![("py".to_string(), Ty::I32)]);
    assert!(c.errors.is_empty());
    let p = Pattern::Struct("Boxed".into(), vec![("item".into(), var("it"))]);
    let b = c.check_pattern(&p, &Ty::App("Boxed".into(), vec![Ty::Str]));
    assert_eq!(b, vec![("it".to_string(), Ty::Str)]);
    assert!(c.errors.is_empty());
}

#[test]
fn struct_pattern_errors() {
    let mut c = checker_with_types();
    let p = Pattern::Struct("Point".into(), vec![("z".into(), var("pz"))]);
    let b = c.check_pattern(&p, &Ty::Named("Point".into()));
    assert!(b.is_empty());
    assert_eq!(c.errors[0].code, ErrorCode::E0015);
    assert_eq!(c.errors[0].message, "struct `Point` has no field `z`");
    c.check_pattern(&Pattern::Struct("Nowhere".into(), vec![]), &Ty::I32);
    assert_eq!(c.errors[1].code, ErrorCode::E0005);
    assert_eq!(c.errors[1].message, "unknown struct `Nowhere` in pattern");
    // The struct's type must agree with the scrutinee's.
    c.check_pattern(&Pattern::Struct("Point".into(), vec![]), &Ty::Bool);
    assert_eq!(c.errors[2].code, ErrorCode::E0001);
    assert_eq!(
        c.errors[2].message,
        "type mismatch in struct pattern `Point`: expected `Point`, got `Bool`"
    );
}

#[test]
fn or_pattern_alternatives_must_bind_the_same_names() {
    let mut c = checker_with_types();
    let p = Pattern::Or(vec![var("x"), var("y")]);
    let b = c.check_pattern(&p, &Ty::I32);
    assert_eq!(b, vec![("x".to_string(), Ty::I32)]);
    assert_eq!(c.errors[0].code, ErrorCode::E0504);
    assert_eq!(
        c.errors[0].message,
        "or-pattern alternatives must bind the same names: expected {\"x\"}, found {\"y\"}"
    );
    let p = Pattern::Or(vec![var("x"), var("x"), Pattern::Wildcard]);
    c.check_pattern(&p, &Ty::I32);
    assert_eq!(
        c.errors[1].message,
        "or-pattern alternatives must bind the same names: expected {\"x\"}, found {}"
    );
    assert_eq!(c.errors.len(), 2);
    assert!(c.check_pattern(&Pattern::Or(vec![]), &Ty::I32).is_empty());
}

#[test]
fn or_pattern_bindings_are_unified() {
    let mut c = checker_with_types();
    let p = Pattern::Or(vec![
        Pattern::Constructor("Some".into(), vec![var("v")]),
        var("v"),
    ]);
    let t = Ty::App("Option".into(), vec![Ty::I32]);
    c.check_pattern(&p, &t);
    assert_eq!(c.errors.len(), 1);
    assert_eq!(
        c.errors[0].message,
        "type mismatch in or-pattern binding `v` type mismatch across alternatives: expected `I32`, got `Option[I32]`"
    );
}

#[test]
fn list_patterns_bind_elements_and_rest() {
    let mut c = checker_with_types();
    let p = Pattern::List(vec![var("a"), var("b")], Some("rest".into()));
    let t = Ty::App("List".into(), vec![Ty::U8]);
    let b = c.check_pattern(&p, &t);
    assert_eq!(
        b,
        vec![
            ("a".to_string(), Ty::Var(0)),
            ("b".to_string(), Ty::Var(0)),
            ("rest".to_string(), Ty::App("List".into(), vec![Ty::U8])),
        ]
    );
    assert_eq!(c.apply_subst(&Ty::Var(0)), Ty::U8);
    c.check_pattern(&Pattern::List(vec![], None), &Ty::Bool);
    assert_eq!(
        c.errors[0].message,
        "type mismatch in list pattern: expected `List[?T1]`, got `Bool`"
    );
}
