use sporec_typeck::check::Checker;
use sporec_typeck::effect_set::EffectSet;
use sporec_typeck::env::HandlerInfo;
use sporec_typeck::error::ErrorCode;
use sporec_typeck::module::{ImportedSymbol, ModuleInterface};
use sporec_typeck::name_map::NameMap;
use sporec_typeck::types::Ty;

fn set(names: &[&str]) -> EffectSet {
    EffectSet::from_names(names.iter().map(|n| n.to_string()).collect())
}

fn lib_module(ret: Ty) -> ModuleInterface {
    let mut m = ModuleInterface::new(vec!["Lib".to_string()]);
    m.functions.insert("read".to_string(), (vec![Ty::Str], ret));
    m.function_caps.insert("read".to_string(), set(&["FileRead"]));
    m.function_errors.insert("read".to_string(), set(&["IoError"]));
    m.function_type_params.insert("read".to_string(), vec!["T".to_string()]);
    m.function_where_bounds.insert("read".to_string(), vec![("T".to_string(), "Show".to_string())]);
    m.types.insert("Shape".to_string(), vec![("Dot".to_string(), vec![])]);
    m.structs.insert("Point".to_string(), vec![("x".to_string(), Ty::I64)]);
    m.struct_type_params.insert("Point".to_string(), vec!["A".to_string()]);
    m.capabilities.insert("Show".to_string());
    m
}

#[test]
fn imported_function_carries_effects_errors_and_type_parameters() {
    let mut c = Checker::new();
    let m = lib_module(Ty::Str);
    c.import_resolved_symbols(&m, &[("read".to_string(), ImportedSymbol::Function)], "Lib");
    assert!(c.errors.is_empty());
    let (params, ret, caps) = c.registry.functions.get("read").expect("read");
    assert_eq!(params, &vec![Ty::Str]);
    assert_eq!(ret, &Ty::Str);
    assert_eq!(caps.iter().to_vec(), vec!["FileRead".to_string()]);
    assert_eq!(c.registry.fn_errors.get("read").expect("errors").iter().to_vec(), vec!["IoError".to_string()]);
    assert_eq!(c.registry.fn_type_params.get("read").expect("params"), &vec!["T".to_string()]);
    assert_eq!(
        c.registry.fn_generic_bounds.get("read").expect("bounds"),
        &vec![("T".to_string(), "Show".to_string())]
    );
}

#[test]
fn same_declaration_twice_is_no_conflict() {
    let mut c = Checker::new();
    let a = lib_module(Ty::Str);
    let b = lib_module(Ty::Str);
    c.import_resolved_symbols(&a, &[("read".to_string(), ImportedSymbol::Function)], "A");
    c.import_resolved_symbols(&b, &[("read".to_string(), ImportedSymbol::Function)], "B");
    assert!(c.errors.is_empty());
}

#[test]
fn different_declarations_of_one_name_are_ambiguous() {
    let mut c = Checker::new();
    let a = lib_module(Ty::Str);
    let b = lib_module(Ty::I64);
    c.import_resolved_symbols(&a, &[("read".to_string(), ImportedSymbol::Function)], "A");
    c.import_resolved_symbols(&b, &[("read".to_string(), ImportedSymbol::Function)], "B");
    assert_eq!(c.errors.len(), 1);
    assert_eq!(c.errors[0].code, ErrorCode::M0303);
    assert_eq!(c.errors[0].message, "ambiguous import: `read` is exported by multiple imported modules");
    // The first declaration stays.
    let (_, ret, _) = c.registry.functions.get("read").expect("read");
    assert_eq!(ret, &Ty::Str);
}

#[test]
fn types_structs_and_interfaces_are_imported() {
    let mut c = Checker::new();
    let m = lib_module(Ty::Str);
    c.import_resolved_symbols(
        &m,
        &[
            ("Shape".to_string(), ImportedSymbol::Type),
            ("Point".to_string(), ImportedSymbol::Struct),
            ("Show".to_string(), ImportedSymbol::Interface),
            ("missing".to_string(), ImportedSymbol::Function),
        ],
        "",
    );
    assert!(c.errors.is_empty());
    assert_eq!(c.registry.types.get("Shape").expect("Shape"), &vec![("Dot".to_string(), vec![])]);
    assert_eq!(c.registry.structs.get("Point").expect("Point"), &vec![("x".to_string(), Ty::I64)]);
    assert_eq!(c.registry.struct_type_params.get("Point").expect("params"), &vec!["A".to_string()]);
    let (tps, methods) = c.registry.interfaces.get("Show").expect("Show");
    assert!(tps.is_empty() && methods.is_empty());
    assert!(c.registry.functions.get("missing").is_none());
}

#[test]
fn handlers_conflict_only_when_they_differ() {
    let handler = |field: Ty| HandlerInfo {
        handled_effects: set(&["Console"]),
        uses_effects: set(&[]),
        fields: vec![("buffer".to_string(), field)],
        methods: NameMap::new(),
    };
    let mut a = ModuleInterface::new(vec!["A".to_string()]);
    a.handlers.insert("Quiet".to_string(), handler(Ty::Str));
    let mut b = ModuleInterface::new(vec!["B".to_string()]);
    b.handlers.insert("Quiet".to_string(), handler(Ty::Str));
    let mut d = ModuleInterface::new(vec!["D".to_string()]);
    d.handlers.insert("Quiet".to_string(), handler(Ty::I64));
    let mut c = Checker::new();
    let quiet = [("Quiet".to_string(), ImportedSymbol::Handler)];
    c.import_resolved_symbols(&a, &quiet, "A");
    c.import_resolved_symbols(&b, &quiet, "B");
    assert!(c.errors.is_empty());
    c.import_resolved_symbols(&d, &quiet, "D");
    assert_eq!(c.errors.len(), 1);
    assert_eq!(c.errors[0].code, ErrorCode::M0303);
}
