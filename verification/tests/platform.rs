use sporec_typeck::effect_set::EffectSet;
use sporec_typeck::module::ModuleInterface;
use sporec_typeck::platform::{
    Platform, PlatformConfig, PlatformRegistry, PlatformStartupErrorKind, PlatformWarningKind,
};
use sporec_typeck::types::Ty;

#[test]
fn cli_platform_has_capabilities() {
    let p = Platform::cli();
    // Built-in effects
    assert!(p.grants("Console"));
    assert!(p.grants("FileRead"));
    assert!(p.grants("FileWrite"));
    assert!(p.grants("NetConnect"));
    assert!(p.grants("NetListen"));
    assert!(p.grants("Env"));
    assert!(p.grants("Spawn"));
    assert!(p.grants("Clock"));
    assert!(p.grants("Random"));
    assert!(p.grants("Exit"));
    // Not granted
    assert!(!p.grants("Gpu"));
}

#[test]
fn embedded_platform_has_no_capabilities() {
    let p = Platform::embedded();
    assert!(!p.grants("Console"));
    assert!(!p.grants("FileRead"));
}

#[test]
fn validate_capabilities_ok() {
    let p = Platform::cli();
    let required = EffectSet::from_names(vec!["Console".into(), "FileRead".into()]);
    assert!(p.validate_capabilities(&required).is_ok());
}

#[test]
fn validate_capabilities_missing() {
    let p = Platform::embedded();
    let required = EffectSet::from_names(vec!["NetConnect".into()]);
    let result = p.validate_capabilities(&required);
    assert!(result.is_err());
    assert!(result.unwrap_err().contains(&"NetConnect".to_string()));
}

#[test]
fn startup_function_validation() {
    let p = Platform::cli();
    let warnings = p.validate_startup_function("main", 0, "()");
    assert!(warnings.is_empty());

    let warnings = p.validate_startup_function("main", 0, "Str");
    assert!(warnings
        .iter()
        .any(|w| w.kind == PlatformWarningKind::WrongStartupSignature));
}

#[test]
fn platform_registry() {
    let reg = PlatformRegistry::with_builtins();
    assert!(reg.get("cli").is_some());
    assert!(reg.get("web").is_some());
    assert!(reg.get("embedded").is_some());
    assert!(reg.get("nonexistent").is_none());
    assert_eq!(reg.all_names().len(), 3);
}

#[test]
fn web_platform_limited_concurrency() {
    let p = Platform::web();
    assert_eq!(p.config.max_concurrency, Some(1));
    assert!(p.config.async_support);
}

#[test]
fn embedded_platform_has_memory_limit_and_no_async() {
    let p = Platform::embedded();
    assert_eq!(p.config.memory_limit, Some(65536));
    assert!(!p.config.async_support);
    assert_eq!(p.name, "embedded");
    assert_eq!(p.startup_function, "main");
    assert_eq!(p.startup_return, "()");
    assert!(p.startup_params.is_empty());
}

#[test]
fn missing_capabilities_are_listed_in_order() {
    let p = Platform::web();
    let required = EffectSet::from_names(vec![
        "FileWrite".into(),
        "Console".into(),
        "Env".into(),
    ]);
    let missing = p.validate_capabilities(&required).unwrap_err();
    assert_eq!(missing, vec!["Env".to_string(), "FileWrite".to_string()]);
}

#[test]
fn startup_warnings_report_each_mismatch() {
    let p = Platform::cli();
    let warnings = p.validate_startup_function("start", 2, "I32");
    assert_eq!(warnings.len(), 3);
    assert_eq!(warnings[0].kind, PlatformWarningKind::MissingStartupFunction);
    assert_eq!(
        warnings[0].message,
        "platform `cli` expects startup function `main`, but it was not found"
    );
    assert_eq!(warnings[1].kind, PlatformWarningKind::WrongStartupSignature);
    assert_eq!(warnings[1].message, "startup function `main` should take 0 parameters, takes 2");
    assert_eq!(warnings[2].kind, PlatformWarningKind::WrongStartupSignature);
    assert_eq!(warnings[2].message, "startup function `main` should return `()`, returns `I32`");
}

#[test]
fn registry_lists_names_sorted_and_replaces_same_name() {
    let mut reg = PlatformRegistry::with_builtins();
    assert_eq!(
        reg.all_names(),
        vec!["cli".to_string(), "embedded".to_string(), "web".to_string()]
    );
    let mut custom = Platform::embedded();
    custom.name = "cli".to_string();
    reg.register(custom);
    assert_eq!(reg.all_names().len(), 3);
    assert!(!reg.get("cli").unwrap().grants("Console"));
}

#[test]
fn default_config_is_unlimited_and_synchronous() {
    let c = PlatformConfig::default();
    assert_eq!(c.max_concurrency, None);
    assert!(!c.async_support);
    assert_eq!(c.memory_limit, None);
    let reg = PlatformRegistry::default();
    assert!(reg.all_names().is_empty());
}

#[test]
fn entry_startup_validation_rejects_missing_function() {
    let platform = Platform::cli();
    let entry = ModuleInterface::new(vec!["app".into()]);

    let err = platform
        .validate_entry_startup(&entry)
        .expect_err("missing startup should fail");
    assert_eq!(err.kind, PlatformStartupErrorKind::MissingStartupFunction);
    assert!(err.message.contains("required startup function `main`"));
}

#[test]
fn entry_startup_validation_rejects_wrong_return_type() {
    let platform = Platform::cli();
    let mut entry = ModuleInterface::new(vec!["app".into()]);
    entry.functions.insert("main".into(), (vec![], Ty::I32));

    let err = platform
        .validate_entry_startup(&entry)
        .expect_err("wrong return type should fail");
    assert_eq!(err.kind, PlatformStartupErrorKind::WrongStartupSignature);
    assert!(err.message.contains("should return `()`"));
}

#[test]
fn entry_startup_validation_accepts_matching_signature() {
    let platform = Platform::cli();
    let mut entry = ModuleInterface::new(vec!["app".into()]);
    entry.functions.insert("main".into(), (vec![], Ty::Unit));

    platform
        .validate_entry_startup(&entry)
        .expect("matching startup signature should pass");
}

#[test]
fn entry_startup_validation_rejects_parameters() {
    let platform = Platform::web();
    let mut entry = ModuleInterface::new(vec!["app".into(), "main".into()]);
    entry.functions.insert("main".into(), (vec![Ty::Str, Ty::I64], Ty::Unit));
    let err = platform.validate_entry_startup(&entry).unwrap_err();
    assert_eq!(err.kind, PlatformStartupErrorKind::WrongStartupSignature);
    assert_eq!(
        err.message,
        "startup function `main` in entry module `app.main` should take () for platform `web`, found (Str, I64)"
    );
}
