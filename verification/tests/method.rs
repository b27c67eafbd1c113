use sporec_typeck::check::Checker;
use sporec_typeck::effect_set::EffectSet;
use sporec_typeck::env::MethodInfo;
use sporec_typeck::error::ErrorCode;
use sporec_typeck::name_map::NameMap;
use sporec_typeck::types::Ty;

fn method(owner: Ty, trait_name: Option<&str>, type_params: Vec<&str>, params: Vec<Ty>, ret: Ty, receiver: bool) -> MethodInfo {
    MethodInfo {
        owner,
        trait_name: trait_name.map(|t| t.to_string()),
        type_params: type_params.into_iter().map(|p| p.to_string()).collect(),
        generic_bounds: vec![],
        params,
        return_type: ret,
        required_effects: EffectSet::new(),
        has_receiver: receiver,
    }
}

fn list_of(t: Ty) -> Ty {
    Ty::App("List".into(), vec![t])
}

#[test]
fn owner_matching_maps_type_parameters() {
    let c = Checker::new();
    let mut mapping = NameMap::new();
    let template = list_of(Ty::Named("T".into()));
    let params = vec!["T".to_string()];
    assert!(c.method_owner_matches(&template, &list_of(Ty::I32), &params, &mut mapping));
    assert_eq!(mapping.get("T"), Some(&Ty::I32));
    // A later match must agree with the mapping.
    assert!(!c.method_owner_matches(&template, &list_of(Ty::Bool), &params, &mut mapping));
    assert!(c.method_owner_matches(&template, &list_of(Ty::I32), &params, &mut mapping));
    // Names that are no type parameter must be equal.
    let mut m2 = NameMap::new();
    assert!(!c.method_owner_matches(&Ty::Named("Point".into()), &Ty::Named("Line".into()), &[], &mut m2));
    assert!(!c.method_owner_matches(&template, &Ty::I32, &params, &mut m2));
}

#[test]
fn instantiation_gives_fresh_variables() {
    let mut c = Checker::new();
    let m = method(
        list_of(Ty::Named("T".into())),
        None,
        vec!["T", "U"],
        vec![Ty::Named("T".into()), Ty::Named("U".into())],
        Ty::Named("U".into()),
        true,
    );
    let mut preset = NameMap::new();
    preset.insert("T".to_string(), Ty::Str);
    let inst = c.instantiate_method(&m, preset);
    assert_eq!(inst.params, vec![Ty::Str, Ty::Var(0)]);
    assert_eq!(inst.return_type, Ty::Var(0));
    assert_eq!(inst.type_mapping.get("U"), Some(&Ty::Var(0)));
    assert!(c.errors.is_empty());
}

#[test]
fn inherent_methods_win_and_ambiguity_is_reported() {
    let mut c = Checker::new();
    let trait_m = method(Ty::Named("P".into()), Some("Show"), vec![], vec![], Ty::Str, true);
    let inherent = method(Ty::Named("P".into()), None, vec![], vec![], Ty::I32, true);
    let r = c.select_method_candidate("show", vec![(trait_m, NameMap::new()), (inherent, NameMap::new())]);
    assert_eq!(r.map(|m| m.return_type), Some(Ty::I32));
    assert!(c.errors.is_empty());
    let a = method(Ty::Named("P".into()), Some("A"), vec![], vec![], Ty::Str, true);
    let b = method(Ty::Named("P".into()), Some("B"), vec![], vec![], Ty::Bool, true);
    let r = c.select_method_candidate("show", vec![(a, NameMap::new()), (b, NameMap::new())]);
    assert_eq!(r.map(|m| m.return_type), Some(Ty::Str));
    assert_eq!(c.errors[0].code, ErrorCode::E0014);
    assert_eq!(c.errors[0].message, "method call `show` is ambiguous for the receiver type");
    assert!(c.select_method_candidate("show", vec![]).is_none());
}

#[test]
fn receiver_and_static_lookup() {
    let mut c = Checker::new();
    c.registry.methods.insert(
        "first".into(),
        vec![method(
            list_of(Ty::Named("T".into())),
            None,
            vec!["T"],
            vec![list_of(Ty::Named("T".into()))],
            Ty::Named("T".into()),
            true,
        )],
    );
    c.registry.methods.insert(
        "origin".into(),
        vec![method(Ty::Named("Point".into()), None, vec![], vec![], Ty::Named("Point".into()), false)],
    );
    let found = c.lookup_receiver_method(&list_of(Ty::Bool), "first").unwrap();
    assert_eq!(found.return_type, Ty::Bool);
    assert_eq!(found.params, vec![list_of(Ty::Bool)]);
    assert!(c.lookup_receiver_method(&Ty::Str, "first").is_none());
    assert!(c.lookup_receiver_method(&Ty::Str, "missing").is_none());
    let origin = c.lookup_static_method("Point", "origin").unwrap();
    assert_eq!(origin.return_type, Ty::Named("Point".into()));
    assert!(c.lookup_static_method("Line", "origin").is_none());
    assert!(c.lookup_receiver_method(&Ty::Named("Point".into()), "origin").is_none());
    assert!(c.errors.is_empty());
}
