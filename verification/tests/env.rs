use sporec_typeck::env::Env;
use sporec_typeck::types::Ty;

#[test]
fn define_and_lookup() {
    let mut env = Env::new();
    env.define("x".into(), Ty::I32);
    assert_eq!(env.lookup("x"), Some(&Ty::I32));
}

#[test]
fn lookup_missing_returns_none() {
    let env = Env::new();
    assert_eq!(env.lookup("missing"), None);
}

#[test]
fn inner_scope_shadows_outer() {
    let mut env = Env::new();
    env.define("x".into(), Ty::I32);
    env.push_scope();
    env.define("x".into(), Ty::Bool);
    assert_eq!(env.lookup("x"), Some(&Ty::Bool));
    env.pop_scope();
    assert_eq!(env.lookup("x"), Some(&Ty::I32));
}

#[test]
fn inner_scope_sees_outer() {
    let mut env = Env::new();
    env.define("x".into(), Ty::I32);
    env.push_scope();
    assert_eq!(env.lookup("x"), Some(&Ty::I32));
    env.pop_scope();
}

#[test]
fn pop_scope_removes_bindings() {
    let mut env = Env::new();
    env.push_scope();
    env.define("local".into(), Ty::Str);
    assert_eq!(env.lookup("local"), Some(&Ty::Str));
    env.pop_scope();
    assert_eq!(env.lookup("local"), None);
}

#[test]
fn all_bindings_merges_scopes() {
    let mut env = Env::new();
    env.define("a".into(), Ty::I32);
    env.push_scope();
    env.define("b".into(), Ty::Bool);
    let bindings = env.all_bindings();
    assert_eq!(bindings.len(), 2);
    assert_eq!(bindings.get("a"), Some(&&Ty::I32));
    assert_eq!(bindings.get("b"), Some(&&Ty::Bool));
}

#[test]
fn all_bindings_inner_shadows_outer() {
    let mut env = Env::new();
    env.define("x".into(), Ty::I32);
    env.push_scope();
    env.define("x".into(), Ty::Bool);
    let bindings = env.all_bindings();
    assert_eq!(bindings.get("x"), Some(&&Ty::Bool));
}

#[test]
fn nested_scopes_depth() {
    let mut env = Env::new();
    env.define("a".into(), Ty::I32);
    env.push_scope();
    env.define("b".into(), Ty::Bool);
    env.push_scope();
    env.define("c".into(), Ty::Str);
    assert_eq!(env.lookup("a"), Some(&Ty::I32));
    assert_eq!(env.lookup("b"), Some(&Ty::Bool));
    assert_eq!(env.lookup("c"), Some(&Ty::Str));
    env.pop_scope();
    assert_eq!(env.lookup("c"), None);
    assert_eq!(env.lookup("b"), Some(&Ty::Bool));
    env.pop_scope();
    assert_eq!(env.lookup("b"), None);
}

#[test]
fn redefining_in_one_scope_replaces() {
    let mut env = Env::default();
    env.define("x".into(), Ty::I32);
    env.define("x".into(), Ty::Str);
    assert_eq!(env.lookup("x"), Some(&Ty::Str));
    let bindings = env.all_bindings();
    assert_eq!(bindings.len(), 1);
    assert_eq!(bindings.key_at(0), "x");
}

#[test]
fn popping_every_scope_leaves_nothing_visible() {
    let mut env = Env::new();
    env.define("x".into(), Ty::I32);
    env.pop_scope();
    env.pop_scope();
    assert_eq!(env.lookup("x"), None);
    assert_eq!(env.all_bindings().len(), 0);
}
