use sporec_typeck::check::Checker;
use sporec_typeck::error::ErrorCode;
use sporec_typeck::name_map::NameMap;
use sporec_typeck::types::Ty;

fn checker_with_show() -> Checker {
    let mut c = Checker::new();
    c.registry.interfaces.insert(
        "Show".into(),
        (vec![], vec![("show".into(), vec![Ty::Named("Self".into())], Ty::Str)]),
    );
    let mut targets = NameMap::new();
    targets.insert("I32".to_string(), vec![]);
    targets.insert("Point".to_string(), vec![]);
    c.registry.impls.insert("Show".into(), targets);
    c
}

fn mapping(name: &str, ty: Ty) -> NameMap<Ty> {
    let mut m = NameMap::new();
    m.insert(name.to_string(), ty);
    m
}

#[test]
fn trait_bounds_are_satisfied_by_implementations() {
    let c = checker_with_show();
    assert!(c.satisfies_trait_bound("Show", &Ty::I32));
    assert!(c.satisfies_trait_bound("Show", &Ty::App("Point".into(), vec![Ty::Bool])));
    assert!(!c.satisfies_trait_bound("Show", &Ty::Bool));
    assert!(!c.satisfies_trait_bound("Eq", &Ty::I32));
    assert!(!c.satisfies_trait_bound("Show", &Ty::Tuple(vec![])));
}

#[test]
fn instantiated_bounds_are_checked() {
    let mut c = checker_with_show();
    c.registry.fn_generic_bounds.insert(
        "print_all".into(),
        vec![("T".into(), "Show".into()), ("U".into(), "Missing".into())],
    );
    c.check_generic_bounds("print_all", &mapping("T", Ty::I32));
    assert_eq!(c.errors.len(), 1);
    assert_eq!(c.errors[0].code, ErrorCode::E0403);
    assert_eq!(c.errors[0].message, "unknown trait bound `Missing` in generic bounds of `print_all`");
    c.check_generic_bounds("print_all", &mapping("T", Ty::Bool));
    assert_eq!(
        c.errors[1].message,
        "type `Bool` does not satisfy generic bound `T: Show` in `print_all`"
    );
    assert_eq!(c.errors[2].code, ErrorCode::E0403);
    let v = c.fresh_var();
    c.check_generic_bounds("print_all", &mapping("T", v));
    assert_eq!(c.errors[3].code, ErrorCode::E0404);
    assert_eq!(
        c.errors[3].message,
        "cannot infer type parameter `T` for generic bound `T: Show` in `print_all`"
    );
    let before = c.errors.len();
    c.check_generic_bounds("other", &mapping("T", Ty::Bool));
    assert_eq!(c.errors.len(), before);
}

#[test]
fn bounds_provide_methods_to_type_parameters() {
    let mut c = checker_with_show();
    c.current_function = "print_it".into();
    c.registry.fn_generic_bounds.insert("print_it".into(), vec![("T".into(), "Show".into())]);
    let recv = Ty::Named("T".into());
    let m = c.lookup_generic_bound_method(&recv, "show").unwrap();
    assert_eq!(m.params, vec![Ty::Named("T".into())]);
    assert_eq!(m.return_type, Ty::Str);
    assert!(c.lookup_generic_bound_method(&recv, "hide").is_none());
    assert!(c.lookup_generic_bound_method(&Ty::Named("U".into()), "show").is_none());
    assert!(c.lookup_generic_bound_method(&Ty::I32, "show").is_none());
    assert!(c.errors.is_empty());
}

#[test]
fn effect_operations_are_looked_up() {
    let mut c = Checker::new();
    c.registry.interfaces.insert(
        "Console".into(),
        (vec![], vec![("print".into(), vec![Ty::Str], Ty::Unit)]),
    );
    c.registry.interfaces.insert(
        "State".into(),
        (
            vec!["S".into()],
            vec![
                ("get".into(), vec![], Ty::Named("S".into())),
                ("put".into(), vec![Ty::Named("S".into())], Ty::Unit),
            ],
        ),
    );
    assert_eq!(c.lookup_registered_effect_operation("Console", "print"), Some((vec![Ty::Str], Ty::Unit)));
    assert_eq!(c.lookup_registered_effect_operation("State", "put"), Some((vec![Ty::Var(0)], Ty::Unit)));
    assert!(c.errors.is_empty());
    assert_eq!(c.lookup_registered_effect_operation("Nope", "x"), None);
    assert_eq!(c.errors[0].code, ErrorCode::F0002);
    assert_eq!(c.errors[0].message, "effect `Nope` has no visible operation protocol");
    assert_eq!(c.lookup_registered_effect_operation("Console", "read"), None);
    assert_eq!(c.errors[1].message, "effect `Console` has no operation `read`");
}
