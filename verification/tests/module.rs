use sporec_typeck::module::{
    ImportResolutionError, ImportedSymbol, ModuleError, ModuleInterface, ModuleRegistry,
    PreludeOptions, SymbolVisibility,
};
use sporec_typeck::types::Ty;

#[test]
fn register_and_lookup_module() {
    let mut reg = ModuleRegistry::new();
    let mut m = ModuleInterface::new(vec!["Math".into()]);
    m.functions.insert("sqrt".into(), (vec![Ty::F64], Ty::F64));
    reg.register(m);

    let found = reg.get(&["Math".into()]);
    assert!(found.is_some());
    assert!(found.unwrap().exports("sqrt"));
}

#[test]
fn resolve_import_success() {
    let mut reg = ModuleRegistry::new();
    let mut m = ModuleInterface::new(vec!["Collections".into()]);
    m.types.insert("List".into(), vec![]);
    m.functions.insert("sort".into(), (vec![], Ty::Unit));
    reg.register(m);

    let result = reg.resolve_import(&["Collections".into()], &["List".into(), "sort".into()]);
    assert!(result.is_ok());
    let resolved = result.unwrap();
    assert_eq!(resolved.len(), 2);
}

#[test]
fn resolve_import_module_not_found() {
    let reg = ModuleRegistry::new();
    let result = reg.resolve_import(&["NonExistent".into()], &["foo".into()]);
    assert!(matches!(result, Err(ModuleError::ModuleNotFound(_))));
}

#[test]
fn resolve_import_symbol_not_found() {
    let mut reg = ModuleRegistry::new();
    reg.register(ModuleInterface::new(vec!["Empty".into()]));
    let result = reg.resolve_import(&["Empty".into()], &["missing".into()]);
    assert!(matches!(result, Err(ModuleError::SymbolNotFound { .. })));
}

#[test]
fn prelude_registration_can_skip_console_builtins() {
    let mut reg = ModuleRegistry::new();
    reg.register_prelude_with_options(PreludeOptions {
        include_console: false,
    });
    let prelude = reg
        .get(&["Std".into(), "Prelude".into()])
        .expect("prelude should be registered");
    assert!(!prelude.exports("print"));
    assert!(!prelude.exports("println"));
    assert!(!prelude.exports("read_line"));
    assert!(prelude.exports("char_to_int"));
}

#[test]
fn all_exports_sorted() {
    let mut m = ModuleInterface::new(vec!["Test".into()]);
    m.functions.insert("beta".into(), (vec![], Ty::Unit));
    m.functions.insert("alpha".into(), (vec![], Ty::Unit));
    m.types.insert("Gamma".into(), vec![]);
    let exports = m.all_exports();
    assert_eq!(exports, vec!["Gamma", "alpha", "beta"]);
}

#[test]
fn get_by_path_string() {
    let mut reg = ModuleRegistry::new();
    let m = ModuleInterface::new(vec!["Std".into(), "IO".into()]);
    reg.register(m);
    assert!(reg.get_by_path("Std.IO").is_some());
    assert!(reg.get_by_path("Std.Math").is_none());
}

#[test]
fn all_modules_sorted() {
    let mut reg = ModuleRegistry::new();
    reg.register(ModuleInterface::new(vec!["Zebra".into()]));
    reg.register(ModuleInterface::new(vec!["Alpha".into()]));
    assert_eq!(reg.all_modules(), vec!["Alpha", "Zebra"]);
}

#[test]
fn resolve_import_private_symbol() {
    let mut reg = ModuleRegistry::new();
    let mut m = ModuleInterface::new(vec!["Lib".into()]);
    m.functions.insert("secret".into(), (vec![], Ty::Unit));
    m.set_visibility("secret", SymbolVisibility::Private);
    reg.register(m);

    let result = reg.resolve_import(&["Lib".into()], &["secret".into()]);
    assert!(matches!(result, Err(ModuleError::PrivateSymbol { .. })));
}

#[test]
fn resolve_import_pub_pkg_symbol() {
    let mut reg = ModuleRegistry::new();
    let mut m = ModuleInterface::new(vec!["Lib".into()]);
    m.functions.insert("internal".into(), (vec![], Ty::Unit));
    m.set_visibility("internal", SymbolVisibility::PubPkg);
    reg.register(m);

    let result = reg.resolve_import(&["Lib".into()], &["internal".into()]);
    assert!(result.is_ok());
}

#[test]
fn detect_cycle_a_imports_b_imports_a() {
    let mut reg = ModuleRegistry::new();
    reg.record_dependency("A", "B");
    reg.record_dependency("B", "A");
    let cycles = reg.detect_cycles();
    assert!(!cycles.is_empty(), "expected a cycle between A and B");
    let cycle = &cycles[0];
    assert!(cycle.first() == cycle.last(), "cycle should close on itself");
}

#[test]
fn detect_cycle_three_modules() {
    let mut reg = ModuleRegistry::new();
    reg.record_dependency("A", "B");
    reg.record_dependency("B", "C");
    reg.record_dependency("C", "A");
    let cycles = reg.detect_cycles();
    assert!(!cycles.is_empty(), "expected a cycle among A, B, C");
    let cycle = &cycles[0];
    assert!(cycle.first() == cycle.last(), "cycle should close on itself");
    assert!(cycle.len() == 4, "cycle path should be [A, B, C, A]");
}

#[test]
fn no_cycle_linear_chain() {
    let mut reg = ModuleRegistry::new();
    reg.record_dependency("A", "B");
    reg.record_dependency("B", "C");
    let cycles = reg.detect_cycles();
    assert!(cycles.is_empty(), "expected no cycles in a linear chain");
}

#[test]
fn detect_self_import_cycle() {
    let mut reg = ModuleRegistry::new();
    reg.record_dependency("A", "A");
    let cycles = reg.detect_cycles();
    assert!(!cycles.is_empty(), "expected a self-import cycle");
    let cycle = &cycles[0];
    assert_eq!(cycle, &vec!["A".to_string(), "A".to_string()]);
}

#[test]
fn cycle_reported_from_first_revisited_module() {
    let mut reg = ModuleRegistry::new();
    reg.record_dependency("main", "A");
    reg.record_dependency("A", "B");
    reg.record_dependency("B", "A");
    let cycles = reg.detect_cycles();
    assert_eq!(cycles, vec![vec!["A".to_string(), "B".to_string(), "A".to_string()]]);
}

#[test]
fn diamond_imports_are_not_a_cycle() {
    let mut reg = ModuleRegistry::default();
    reg.record_dependency("app", "left");
    reg.record_dependency("app", "right");
    reg.record_dependency("left", "base");
    reg.record_dependency("right", "base");
    assert!(reg.detect_cycles().is_empty());
}

#[test]
fn resolve_import_reports_kinds_in_order() {
    let mut reg = ModuleRegistry::new();
    let mut m = ModuleInterface::new(vec!["Std".into(), "Kit".into()]);
    m.structs.insert("Point".into(), vec![]);
    m.functions.insert("run".into(), (vec![], Ty::Unit));
    m.capabilities.insert("Logger".into());
    reg.register(m);
    let resolved = reg
        .resolve_import(
            &["Std".into(), "Kit".into()],
            &["run".into(), "Point".into(), "Logger".into()],
        )
        .unwrap();
    assert_eq!(
        resolved,
        vec![
            ("run".to_string(), ImportedSymbol::Function),
            ("Point".to_string(), ImportedSymbol::Struct),
            ("Logger".to_string(), ImportedSymbol::Interface),
        ]
    );
    let err = reg
        .resolve_import(&["Std".into(), "Kit".into()], &["run".into(), "nope".into()])
        .unwrap_err();
    assert_eq!(
        err,
        ModuleError::SymbolNotFound { module: "Std.Kit".into(), symbol: "nope".into() }
    );
    assert_eq!(err.to_string(), "symbol `nope` not found in module `Std.Kit`");
}

#[test]
fn prelude_with_console_requires_console_effect() {
    let mut reg = ModuleRegistry::new();
    reg.register_prelude();
    let prelude = reg.get_by_path("Std.Prelude").unwrap();
    assert!(prelude.exports("println"));
    assert!(prelude.exports("List"));
    assert!(prelude.function_caps.get("print").unwrap().contains("Console"));
    assert_eq!(prelude.qualified_name(), "Std.Prelude");
    assert_eq!(
        prelude.functions.get("map").map(|(ps, r)| (ps.len(), r.to_string())),
        Some((2, "List[?T1]".to_string()))
    );
}

#[test]
fn prelude_builtin_signatures() {
    let mut reg = ModuleRegistry::new();
    reg.register_prelude();
    let prelude = reg.get_by_path("Std.Prelude").unwrap();
    let sig = |name: &str| {
        prelude.functions.get(name).map(|(ps, r)| {
            (ps.iter().map(|t| t.to_string()).collect::<Vec<_>>(), r.to_string())
        })
    };
    assert_eq!(sig("split"), Some((vec!["Str".to_string(), "Str".to_string()], "List[Str]".to_string())));
    assert_eq!(sig("read_line"), Some((vec![], "Str".to_string())));
    assert_eq!(sig("char_at"), Some((vec!["Str".to_string(), "I64".to_string()], "Option[Str]".to_string())));
    assert_eq!(sig("tail"), Some((vec!["List[?T0]".to_string()], "Option[List[?T0]]".to_string())));
    assert_eq!(sig("substring").map(|s| s.0.len()), Some(3));
    assert_eq!(sig("nope"), None);
    assert_eq!(prelude.functions.len(), 33);
}

#[test]
fn module_error_messages() {
    assert_eq!(
        ModuleError::CircularDependency(vec!["a".into(), "b".into(), "a".into()]).to_string(),
        "circular module dependency: a -> b -> a"
    );
    assert_eq!(
        ModuleError::PrivateSymbol { module: "Lib".into(), symbol: "x".into() }.to_string(),
        "symbol `x` in module `Lib` is private and not accessible"
    );
    let e = ImportResolutionError::new(
        "main".into(),
        "Missing".into(),
        None,
        ModuleError::ModuleNotFound("Missing".into()),
    );
    assert_eq!(e.to_string(), "module `Missing` not found");
}

#[test]
fn visibility_defaults_to_public() {
    let mut m = ModuleInterface::new(vec![]);
    assert_eq!(m.visibility("anything"), SymbolVisibility::Pub);
    m.set_visibility("hidden", SymbolVisibility::Private);
    assert_eq!(m.visibility("hidden"), SymbolVisibility::Private);
    assert_eq!(m.qualified_name(), "");
}

#[test]
fn detect_cycles_reports_each_cycle_once_in_search_order() {
    let mut reg = ModuleRegistry::new();
    reg.record_dependency("A", "B");
    reg.record_dependency("B", "C");
    reg.record_dependency("C", "A");
    let expected: Vec<Vec<String>> = vec![vec!["A".to_string(), "B".to_string(), "C".to_string(), "A".to_string()]];
    assert_eq!(reg.detect_cycles(), expected);

    let mut two = ModuleRegistry::new();
    two.record_dependency("B", "A");
    two.record_dependency("A", "B");
    let expected: Vec<Vec<String>> = vec![vec!["A".to_string(), "B".to_string(), "A".to_string()]];
    assert_eq!(two.detect_cycles(), expected);
}
