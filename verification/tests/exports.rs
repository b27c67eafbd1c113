use std::rc::Rc;

use sporec_typeck::ast::{
    CapabilityDef, EffectDef, Expr, FieldDef, FnDef, Item, Module, Param, StructDef,
    TypeConstraint, TypeDef, TypeExpr, VariantDef, Visibility,
};
use sporec_typeck::build_module_interface;
use sporec_typeck::module::SymbolVisibility;
use sporec_typeck::types::Ty;

fn function(name: &str, params: Vec<(&str, TypeExpr)>, ret: Option<TypeExpr>) -> FnDef {
    FnDef {
        name: name.into(),
        visibility: Visibility::Pub,
        type_params: vec![],
        params: params
            .into_iter()
            .map(|(n, ty)| Param { name: n.into(), ty })
            .collect(),
        return_type: ret,
        errors: vec![],
        uses_clause: None,
        where_clause: vec![],
        body: None,
        cost_clause: None,
        is_unbounded: false,
        budget_clause: None,
    }
}

fn named(n: &str) -> TypeExpr {
    TypeExpr::Named(n.into())
}

#[test]
fn path_comes_from_the_dotted_name() {
    let iface = build_module_interface(&Module { name: "std.collections.list".into(), items: vec![] });
    assert_eq!(iface.path, vec!["std".to_string(), "collections".to_string(), "list".to_string()]);
    assert_eq!(iface.qualified_name(), "std.collections.list");
    let unnamed = build_module_interface(&Module { name: String::new(), items: vec![] });
    assert!(unnamed.path.is_empty());
}

#[test]
fn functions_export_resolved_signatures_effects_and_type_parameters() {
    let mut f = function("fetch", vec![("url", named("Str")), ("n", TypeExpr::Hole(None))], None);
    f.visibility = Visibility::PubPkg;
    f.type_params = vec!["T".into(), "A".into()];
    f.where_clause = vec![TypeConstraint { type_var: "B".into(), bound: "Show".into() }];
    f.uses_clause = Some(vec!["Net".into(), "Clock".into(), "Net".into()]);
    let g = function("main", vec![], Some(named("I32")));
    let iface = build_module_interface(&Module {
        name: "app".into(),
        items: vec![Item::Function(f), Item::Function(g)],
    });
    let (params, ret) = iface.functions.get("fetch").expect("fetch");
    assert_eq!(params, &vec![Ty::Str, Ty::Var(0)]);
    assert_eq!(ret, &Ty::Unit);
    let caps = iface.function_caps.get("fetch").expect("caps");
    assert_eq!(caps.iter().to_vec(), vec!["Clock".to_string(), "Net".to_string()]);
    assert_eq!(
        iface.function_type_params.get("fetch"),
        Some(&vec!["A".to_string(), "B".to_string(), "T".to_string()])
    );
    assert_eq!(
        iface.function_where_bounds.get("fetch"),
        Some(&vec![("B".to_string(), "Show".to_string())])
    );
    assert_eq!(iface.visibility("fetch"), SymbolVisibility::PubPkg);
    assert_eq!(iface.functions.get("main").map(|p| &p.1), Some(&Ty::I32));
    assert!(iface.function_type_params.get("main").is_none());
    assert!(iface.function_where_bounds.get("main").is_none());
    assert!(iface.exports("main"));
}

#[test]
fn structs_types_traits_and_effects_are_exported() {
    let pred = Rc::new(Expr::BoolLit(true));
    let items = vec![
        Item::StructDef(StructDef {
            name: "Point".into(),
            visibility: Visibility::Private,
            type_params: vec!["T".into()],
            fields: vec![
                FieldDef { name: "x".into(), ty: named("T") },
                FieldDef {
                    name: "y".into(),
                    ty: TypeExpr::Refinement(Box::new(named("I64")), "v".into(), pred.clone()),
                },
            ],
        }),
        Item::TypeDef(TypeDef {
            name: "Shape".into(),
            visibility: Visibility::Pub,
            type_params: vec![],
            variants: vec![
                VariantDef { name: "Circle".into(), fields: vec![named("F64")] },
                VariantDef { name: "Empty".into(), fields: vec![] },
            ],
        }),
        Item::TraitDef(CapabilityDef {
            name: "Show".into(),
            visibility: Visibility::Pub,
            type_params: vec![],
            methods: vec![function("show", vec![("self", named("Self"))], Some(named("Str")))],
        }),
        Item::EffectDef(EffectDef {
            name: "Log".into(),
            visibility: Visibility::Pub,
            type_params: vec!["M".into()],
            operations: vec![function("log", vec![("m", named("M"))], None)],
        }),
        Item::CapabilityDef(CapabilityDef {
            name: "Ignored".into(),
            visibility: Visibility::Pub,
            type_params: vec![],
            methods: vec![],
        }),
    ];
    let iface = build_module_interface(&Module { name: "geo".into(), items });
    let fields = iface.structs.get("Point").expect("Point");
    assert_eq!(fields[0], ("x".to_string(), Ty::Named("T".into())));
    assert_eq!(fields[1], ("y".to_string(), Ty::Refined(Box::new(Ty::I64), "v".into(), pred)));
    assert_eq!(iface.struct_type_params.get("Point"), Some(&vec!["T".to_string()]));
    assert_eq!(iface.visibility("Point"), SymbolVisibility::Private);
    let variants = iface.types.get("Shape").expect("Shape");
    assert_eq!(variants[0], ("Circle".to_string(), vec![Ty::F64]));
    assert_eq!(variants[1], ("Empty".to_string(), vec![]));
    assert!(iface.capabilities.contains("Show"));
    assert!(iface.capabilities.contains("Log"));
    assert!(!iface.capabilities.contains("Ignored"));
    let (tps, methods) = iface.capability_methods.get("Log").expect("Log");
    assert_eq!(tps, &vec!["M".to_string()]);
    assert_eq!(methods[0], ("log".to_string(), vec![Ty::Named("M".into())], Ty::Unit));
    let (_, show) = iface.capability_methods.get("Show").expect("Show");
    assert_eq!(show[0].2, Ty::Str);
    assert_eq!(
        iface.all_exports(),
        vec!["Log".to_string(), "Point".to_string(), "Shape".to_string(), "Show".to_string()]
    );
}
