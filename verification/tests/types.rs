use std::rc::Rc;
use sporec_typeck::ast::Expr;
use sporec_typeck::effect_set::EffectSet;
use sporec_typeck::is_synthetic_hole_name;
use sporec_typeck::types::Ty;

fn dummy_expr() -> Rc<Expr> {
    Rc::new(Expr::BoolLit(true))
}

#[test]
fn integer_types() {
    for ty in [
        Ty::I8,
        Ty::I16,
        Ty::I32,
        Ty::I64,
        Ty::U8,
        Ty::U16,
        Ty::U32,
        Ty::U64,
    ] {
        assert!(ty.is_integer(), "{} should be integer", ty.to_string());
        assert!(ty.is_numeric(), "{} should be numeric", ty.to_string());
    }
}

#[test]
fn float_types_are_numeric_not_integer() {
    for ty in [Ty::F32, Ty::F64] {
        assert!(!ty.is_integer(), "{} should not be integer", ty.to_string());
        assert!(ty.is_numeric(), "{} should be numeric", ty.to_string());
    }
}

#[test]
fn non_numeric_types() {
    assert!(!Ty::Bool.is_numeric());
    assert!(!Ty::Str.is_numeric());
    assert!(!Ty::Unit.is_numeric());
    assert!(!Ty::Never.is_numeric());
}

#[test]
fn error_sentinel() {
    assert!(Ty::Error.is_error());
    assert!(!Ty::I32.is_error());
}

#[test]
fn base_type_strips_single_refinement() {
    let refined = Ty::Refined(Box::new(Ty::I32), "x".into(), dummy_expr());
    assert_eq!(*refined.base_type(), Ty::I32);
}

#[test]
fn base_type_strips_nested_refinement() {
    let inner = Ty::Refined(Box::new(Ty::I32), "y".into(), dummy_expr());
    let outer = Ty::Refined(Box::new(inner), "x".into(), dummy_expr());
    assert_eq!(*outer.base_type(), Ty::I32);
}

#[test]
fn base_type_identity_for_non_refined() {
    assert_eq!(*Ty::Bool.base_type(), Ty::Bool);
    assert_eq!(*Ty::Str.base_type(), Ty::Str);
}

#[test]
fn equality_same_primitives() {
    assert_eq!(Ty::I32, Ty::I32);
    assert_ne!(Ty::I32, Ty::I64);
}

#[test]
fn equality_named() {
    assert_eq!(Ty::Named("Foo".into()), Ty::Named("Foo".into()));
    assert_ne!(Ty::Named("Foo".into()), Ty::Named("Bar".into()));
}

#[test]
fn equality_app() {
    let a = Ty::App("List".into(), vec![Ty::I32]);
    let b = Ty::App("List".into(), vec![Ty::I32]);
    let c = Ty::App("List".into(), vec![Ty::Bool]);
    assert_eq!(a, b);
    assert_ne!(a, c);
}

#[test]
fn equality_refined() {
    let a = Ty::Refined(Box::new(Ty::I32), "x".into(), dummy_expr());
    let b = Ty::Refined(Box::new(Ty::I32), "x".into(), dummy_expr());
    assert_eq!(a, b);
}

#[test]
fn equality_refined_vs_base() {
    let refined = Ty::Refined(Box::new(Ty::I32), "x".into(), dummy_expr());
    assert_ne!(refined, Ty::I32, "refined should not equal base type");
}

#[test]
fn display_primitives() {
    assert_eq!(Ty::I32.to_string(), "I32");
    assert_eq!(Ty::Bool.to_string(), "Bool");
    assert_eq!(Ty::Unit.to_string(), "()");
    assert_eq!(Ty::Never.to_string(), "Never");
}

#[test]
fn display_app() {
    let ty = Ty::App("List".into(), vec![Ty::I32]);
    assert_eq!(ty.to_string(), "List[I32]");
}

#[test]
fn display_tuple() {
    let ty = Ty::Tuple(vec![Ty::I32, Ty::Bool]);
    assert_eq!(ty.to_string(), "(I32, Bool)");
}

#[test]
fn display_fn() {
    let ty = Ty::Fn(vec![Ty::I32], Box::new(Ty::Bool), EffectSet::new());
    assert_eq!(ty.to_string(), "(I32) -> Bool");
}

#[test]
fn display_outcome() {
    let ty = Ty::Outcome(Box::new(Ty::I32), Box::new(Ty::Named("IoError".into())));
    assert_eq!(ty.to_string(), "I32 ! IoError");
}

#[test]
fn display_record() {
    let ty = Ty::Record(vec![("x".into(), Ty::I32), ("y".into(), Ty::I32)]);
    assert_eq!(ty.to_string(), "{ x: I32, y: I32 }");
}

#[test]
fn display_hole() {
    assert_eq!(Ty::Hole("foo".into()).to_string(), "?foo");
}

#[test]
fn display_refinement() {
    let ty = Ty::Refined(Box::new(Ty::I32), "x".into(), dummy_expr());
    assert_eq!(ty.to_string(), "I32 when <predicate>");
}

#[test]
fn display_fn_with_effects_and_vars() {
    let caps = EffectSet::from_names(vec!["NetConnect".into(), "Console".into()]);
    let ty = Ty::Fn(vec![Ty::Var(0), Ty::Str], Box::new(Ty::Var(12)), caps);
    assert_eq!(ty.to_string(), "(?T0, Str) -> ?T12 uses [Console, NetConnect]");
    assert_eq!(Ty::Fn(vec![], Box::new(Ty::Unit), EffectSet::new()).to_string(), "() -> ()");
}

#[test]
fn display_synthetic_hole_and_error() {
    assert_eq!(Ty::Hole("_hole3".into()).to_string(), "?");
    assert_eq!(Ty::Hole("_hole".into()).to_string(), "?_hole");
    assert_eq!(Ty::Error.to_string(), "<error>");
    assert_eq!(Ty::Tuple(vec![]).to_string(), "()");
    assert_eq!(Ty::Record(vec![]).to_string(), "{  }");
}

#[test]
fn synthetic_hole_names() {
    assert!(is_synthetic_hole_name("_hole0"));
    assert!(is_synthetic_hole_name("_hole123"));
    assert!(!is_synthetic_hole_name("_hole"));
    assert!(!is_synthetic_hole_name("_hole1a"));
    assert!(!is_synthetic_hole_name("hole1"));
    assert!(!is_synthetic_hole_name("_Hole1"));
}
