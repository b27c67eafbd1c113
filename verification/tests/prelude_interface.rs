use sporec_typeck::ast::{
    CapabilityDef, FieldDef, FnDef, Item, Module, Param, StructDef, TypeConstraint, TypeDef,
    TypeExpr, VariantDef, Visibility,
};
use sporec_typeck::module::{ModuleRegistry, PreludeOptions, SymbolVisibility};
use sporec_typeck::prelude_interface::build_prelude_interface;
use sporec_typeck::types::Ty;

fn function(name: &str, params: Vec<TypeExpr>, ret: Option<TypeExpr>) -> FnDef {
    FnDef {
        name: name.into(),
        visibility: Visibility::Pub,
        type_params: vec![],
        params: params
            .into_iter()
            .enumerate()
            .map(|(i, ty)| Param { name: format!("p{i}"), ty })
            .collect(),
        return_type: ret,
        errors: vec![],
        uses_clause: None,
        where_clause: vec![],
        body: None,
        cost_clause: None,
        is_unbounded: false,
        budget_clause: None,
    }
}

fn named(n: &str) -> TypeExpr {
    TypeExpr::Named(n.into())
}

fn prelude(items: Vec<Item>) -> Module {
    Module { name: "prelude".into(), items }
}

#[test]
fn prelude_lives_at_std_prelude() {
    let iface = build_prelude_interface(&prelude(vec![]));
    assert_eq!(iface.path, vec!["Std".to_string(), "Prelude".to_string()]);
    assert_eq!(iface.qualified_name(), "Std.Prelude");
}

#[test]
fn generic_functions_map_type_parameters_in_name_order() {
    let mut f = function(
        "map",
        vec![
            TypeExpr::Generic("List".into(), vec![named("T")]),
            TypeExpr::Function(vec![named("T")], Box::new(named("U")), vec![]),
        ],
        Some(TypeExpr::Generic("List".into(), vec![named("U")])),
    );
    f.type_params = vec!["U".into(), "T".into()];
    f.where_clause = vec![TypeConstraint { type_var: "A".into(), bound: "Show".into() }];
    let iface = build_prelude_interface(&prelude(vec![Item::Function(f)]));
    let (params, ret) = iface.functions.get("map").expect("map");
    // Sorted: A -> ?0, T -> ?1, U -> ?2.
    assert_eq!(
        params,
        &vec![
            Ty::App("List".into(), vec![Ty::Var(1)]),
            Ty::Fn(vec![Ty::Var(1)], Box::new(Ty::Var(2)), sporec_typeck::effect_set::EffectSet::new()),
        ]
    );
    assert_eq!(ret, &Ty::App("List".into(), vec![Ty::Var(2)]));
    assert_eq!(
        iface.function_type_params.get("map").expect("params"),
        &vec!["A".to_string(), "T".to_string(), "U".to_string()]
    );
    assert_eq!(
        iface.function_where_bounds.get("map").expect("bounds"),
        &vec![("A".to_string(), "Show".to_string())]
    );
}

#[test]
fn functions_keep_effects_errors_and_visibility() {
    let mut f = function("read", vec![named("Str")], None);
    f.uses_clause = Some(vec!["FileRead".into()]);
    f.errors = vec![named("IoError"), TypeExpr::Tuple(vec![])];
    f.visibility = Visibility::Private;
    let g = function("pure", vec![], Some(TypeExpr::Tuple(vec![])));
    let iface = build_prelude_interface(&prelude(vec![Item::Function(f), Item::Function(g)]));
    let (_, ret) = iface.functions.get("read").expect("read");
    assert_eq!(ret, &Ty::Unit);
    assert_eq!(iface.function_caps.get("read").expect("caps").iter().to_vec(), vec!["FileRead".to_string()]);
    assert_eq!(iface.function_errors.get("read").expect("errors").iter().to_vec(), vec!["IoError".to_string()]);
    assert!(iface.function_errors.get("pure").is_none());
    assert!(iface.function_type_params.get("pure").is_none());
    assert_eq!(iface.visibility("read"), SymbolVisibility::Private);
    assert_eq!(iface.visibility("pure"), SymbolVisibility::Pub);
}

#[test]
fn structs_types_and_capabilities_are_exported() {
    let s = StructDef {
        name: "Pair".into(),
        visibility: Visibility::Pub,
        type_params: vec!["A".into()],
        fields: vec![
            FieldDef { name: "left".into(), ty: named("A") },
            FieldDef { name: "count".into(), ty: named("I64") },
        ],
    };
    let t = TypeDef {
        name: "Option".into(),
        visibility: Visibility::Pub,
        type_params: vec!["T".into()],
        variants: vec![
            VariantDef { name: "Some".into(), fields: vec![named("T")] },
            VariantDef { name: "None".into(), fields: vec![] },
        ],
    };
    let c = CapabilityDef {
        name: "Console".into(),
        visibility: Visibility::Pub,
        type_params: vec![],
        methods: vec![],
    };
    let iface = build_prelude_interface(&prelude(vec![
        Item::StructDef(s),
        Item::TypeDef(t),
        Item::CapabilityDef(c),
        Item::Const("LIMIT".into()),
    ]));
    // Struct fields resolve without type parameters.
    assert_eq!(
        iface.structs.get("Pair").expect("Pair"),
        &vec![("left".to_string(), Ty::Named("A".into())), ("count".to_string(), Ty::I64)]
    );
    assert_eq!(iface.struct_type_params.get("Pair").expect("params"), &vec!["A".to_string()]);
    assert_eq!(
        iface.types.get("Option").expect("Option"),
        &vec![("Some".to_string(), vec![Ty::Var(0)]), ("None".to_string(), vec![])]
    );
    assert!(iface.exports("Console"));
    assert!(!iface.exports("LIMIT"));
    assert!(iface.capability_methods.get("Console").is_none());
}

#[test]
fn holes_stand_for_named_types() {
    let f = function("h", vec![TypeExpr::Hole(Some("X".into())), TypeExpr::Hole(None)], None);
    let iface = build_prelude_interface(&prelude(vec![Item::Function(f)]));
    let (params, _) = iface.functions.get("h").expect("h");
    assert_eq!(params, &vec![Ty::Named("X".into()), Ty::Named("_".into())]);
}

#[test]
fn registering_the_prelude_source_adds_builtins() {
    let mut reg = ModuleRegistry::new();
    let greet = function("greet", vec![named("Str")], Some(named("Str")));
    let maybe = TypeDef {
        name: "Maybe".into(),
        visibility: Visibility::Pub,
        type_params: vec!["T".into()],
        variants: vec![VariantDef { name: "Just".into(), fields: vec![named("T")] }],
    };
    reg.register_prelude_module(
        &prelude(vec![Item::Function(greet), Item::TypeDef(maybe)]),
        PreludeOptions { include_console: false },
    );
    let p = reg.get(&["Std".to_string(), "Prelude".to_string()]).expect("prelude");
    assert!(p.exports("greet"));
    assert!(p.exports("Maybe"));
    assert!(p.exports("List"));
    assert!(p.exports("char_to_int"));
    assert!(!p.exports("print"));
}
