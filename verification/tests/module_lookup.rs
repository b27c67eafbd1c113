use sporec_typeck::ast::TypeExpr;
use sporec_typeck::check::{Checker, Substitution};
use sporec_typeck::name_map::NameMap;
use sporec_typeck::types::Ty;

#[test]
fn module_functions_get_fresh_type_variables() {
    let mut c = Checker::new();
    c.module_registry.register_prelude();
    c.fresh_var();
    c.fresh_var();
    let (params, ret, caps) = c.lookup_module_function("map").unwrap();
    assert_eq!(params.len(), 2);
    assert_eq!(params[0], Ty::App("List".into(), vec![Ty::Var(2)]));
    assert_eq!(ret, Ty::App("List".into(), vec![Ty::Var(3)]));
    assert!(caps.is_empty());
    assert_eq!(c.fresh_var(), Ty::Var(4));
    let (params, ret, caps) = c.lookup_module_function("println").unwrap();
    assert_eq!(params, vec![Ty::Str]);
    assert_eq!(ret, Ty::Unit);
    assert!(caps.contains("Console"));
    assert!(c.lookup_module_function("nope").is_none());
    assert!(c.errors.is_empty());
}

#[test]
fn type_variables_are_collected_in_order() {
    let mut ids = Vec::new();
    let t = Ty::Tuple(vec![Ty::Var(7), Ty::App("List".into(), vec![Ty::Var(2)]), Ty::Var(7)]);
    Checker::collect_vars(&t, &mut ids);
    assert_eq!(ids, vec![2, 7]);
    Checker::collect_vars(&Ty::Var(5), &mut ids);
    assert_eq!(ids, vec![2, 5, 7]);
}

#[test]
fn variables_are_replaced_by_their_images() {
    let mut m = Substitution::new();
    m.insert(1, Ty::Bool);
    let t = Ty::Fn(vec![Ty::Var(1), Ty::Var(3)], Box::new(Ty::Var(1)), Default::default());
    let r = Checker::replace_vars(&t, &m);
    assert_eq!(r, Ty::Fn(vec![Ty::Bool, Ty::Var(3)], Box::new(Ty::Bool), Default::default()));
}

#[test]
fn checker_with_a_module_registry() {
    let mut reg = sporec_typeck::module::ModuleRegistry::new();
    reg.register_prelude();
    let mut c = Checker::with_module_registry(reg);
    let (params, ret, _) = c.lookup_module_function("trim").unwrap();
    assert_eq!(params, vec![Ty::Str]);
    assert_eq!(ret, Ty::Str);
    assert!(c.errors.is_empty());
}

#[test]
fn uses_clauses_expand_named_surfaces() {
    let mut c = Checker::new();
    c.hierarchy.add_surface("Net".into(), vec!["NetConnect".into(), "NetListen".into()]);
    let declared = c.declared_effects(Some(&vec!["Net".to_string(), "IO".to_string()]));
    let names: Vec<String> = declared.iter().to_vec();
    assert_eq!(names, vec!["IO", "NetConnect", "NetListen"]);
    assert!(c.declared_effects(None).is_empty());
}

#[test]
fn named_signature_holes_share_one_type() {
    let mut c = Checker::new();
    let mut holes = NameMap::new();
    let te = TypeExpr::Function(
        vec![
            TypeExpr::Hole(Some("a".into())),
            TypeExpr::Hole(Some("a".into())),
            TypeExpr::Hole(None),
        ],
        Box::new(TypeExpr::Tuple(vec![TypeExpr::Hole(Some("b".into())), TypeExpr::Named("I32".into())])),
        vec![],
    );
    let t = c.resolve_signature_type(&te, &mut holes);
    assert_eq!(
        t,
        Ty::Fn(
            vec![Ty::Var(0), Ty::Var(0), Ty::Var(1)],
            Box::new(Ty::Tuple(vec![Ty::Var(2), Ty::I32])),
            Default::default()
        )
    );
    assert_eq!(holes.get("a"), Some(&Ty::Var(0)));
    assert_eq!(holes.get("b"), Some(&Ty::Var(2)));
    // A later type of the same signature reuses the holes.
    let again = c.resolve_signature_type(&TypeExpr::Hole(Some("b".into())), &mut holes);
    assert_eq!(again, Ty::Var(2));
    assert_eq!(c.fresh_var(), Ty::Var(3));
}
