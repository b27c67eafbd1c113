use sporec_typeck::ast::{
    AstCostExpr, EffectDef, BinOp, CapabilityDef, CostClause, Expr, FieldDef, FnDef, Item, MatchArm, Module,
    Param, Pattern, SelectArm, Stmt, StrPart, StructDef, TypeExpr, Visibility,
};
use sporec_typeck::hir::{HirBinOp, HirExpr, HirItem, HirPattern, HirStmt, HirTypeRef, PrimitiveTy, UNRESOLVED};
use sporec_typeck::lower;
use sporec_typeck::lower::Lowering;

fn var(n: &str) -> Expr {
    Expr::Var(n.into())
}

fn function(name: &str, params: Vec<Param>, body: Option<Expr>) -> FnDef {
    FnDef {
        name: name.into(),
        visibility: Visibility::Pub,
        type_params: vec![],
        params,
        return_type: None,
        errors: vec![],
        uses_clause: None,
        where_clause: vec![],
        body,
        cost_clause: None,
        is_unbounded: false,
        budget_clause: None,
    }
}

fn lower_body(body: Expr) -> HirExpr {
    let module = Module { name: String::new(), items: vec![Item::Function(function("main", vec![], Some(body)))] };
    let hir = lower(&module);
    match hir.items.into_iter().next() {
        Some(HirItem::Function(f)) => f.body.expect("body"),
        _ => panic!("expected a function"),
    }
}

#[test]
fn top_level_names_get_ids_in_source_order() {
    let module = Module {
        name: String::new(),
        items: vec![
            Item::Function(function("a", vec![], None)),
            Item::StructDef(StructDef {
                name: "B".into(),
                visibility: Visibility::Pub,
                type_params: vec![],
                fields: vec![FieldDef { name: "x".into(), ty: TypeExpr::Named("I32".into()) }],
            }),
            Item::EffectDef(EffectDef {
                name: "E".into(),
                visibility: Visibility::Pub,
                type_params: vec![],
                operations: vec![],
            }),
            Item::Function(function("c", vec![], None)),
        ],
    };
    let hir = lower(&module);
    // The effect has no HIR form.
    assert_eq!(hir.items.len(), 3);
    match &hir.items[0] {
        HirItem::Function(f) => {
            assert_eq!(f.name, "a");
            assert_eq!(f.def_id, 0);
        }
        _ => panic!("expected a function"),
    }
    match &hir.items[1] {
        HirItem::StructDef(s) => {
            assert_eq!(s.def_id, 1);
            assert_eq!(s.fields.len(), 1);
            assert!(matches!(s.fields[0].1, HirTypeRef::Primitive(PrimitiveTy::Int)));
        }
        _ => panic!("expected a struct"),
    }
    match &hir.items[2] {
        HirItem::Function(f) => assert_eq!(f.def_id, 3),
        _ => panic!("expected a function"),
    }
}

#[test]
fn pipe_becomes_call_of_right_side() {
    let module = Module {
        name: String::new(),
        items: vec![
            Item::Function(function("f", vec![], None)),
            Item::Function(function(
                "main",
                vec![],
                Some(Expr::Pipe(Box::new(Expr::IntLit(1)), Box::new(var("f")))),
            )),
        ],
    };
    let hir = lower(&module);
    let body = match &hir.items[1] {
        HirItem::Function(f) => f.body.as_ref().expect("body"),
        _ => panic!("expected a function"),
    };
    match body {
        HirExpr::Call(callee, args) => {
            assert!(matches!(&**callee, HirExpr::Var(n, 0) if n == "f"));
            assert_eq!(args.len(), 1);
            assert!(matches!(args[0], HirExpr::IntLit(1)));
        }
        other => panic!("expected a call, got {:?}", other),
    }
}

#[test]
fn fstring_becomes_left_nested_concatenation() {
    let body = lower_body(Expr::FString(vec![
        StrPart::Literal("a".into()),
        StrPart::Expr(var("n")),
        StrPart::Literal("b".into()),
    ]));
    match body {
        HirExpr::BinOp(lhs, HirBinOp::Add, rhs) => {
            assert!(matches!(&*rhs, HirExpr::StrLit(s) if s == "b"));
            match *lhs {
                HirExpr::BinOp(first, HirBinOp::Add, second) => {
                    assert!(matches!(&*first, HirExpr::StrLit(s) if s == "a"));
                    match *second {
                        HirExpr::Call(callee, args) => {
                            assert!(
                                matches!(&*callee, HirExpr::Var(n, id) if n == "to_string" && *id == UNRESOLVED)
                            );
                            assert!(
                                matches!(&args[0], HirExpr::Var(n, id) if n == "n" && *id == UNRESOLVED)
                            );
                        }
                        other => panic!("expected a call, got {:?}", other),
                    }
                }
                other => panic!("expected a concatenation, got {:?}", other),
            }
        }
        other => panic!("expected a concatenation, got {:?}", other),
    }
}

#[test]
fn empty_fstring_is_empty_literal() {
    let body = lower_body(Expr::TString(vec![]));
    assert!(matches!(body, HirExpr::StrLit(s) if s.is_empty()));
}

#[test]
fn let_binding_resolves_after_registration() {
    let body = lower_body(Expr::Block(
        vec![Stmt::Let("y".into(), Some(TypeExpr::Tuple(vec![])), Expr::IntLit(1))],
        Some(Box::new(var("y"))),
    ));
    match body {
        HirExpr::Block(stmts, Some(tail)) => {
            match &stmts[0] {
                HirStmt::Let(n, Some(HirTypeRef::Primitive(PrimitiveTy::Unit)), HirExpr::IntLit(1)) => {
                    assert_eq!(n, "y")
                }
                other => panic!("unexpected statement {:?}", other),
            }
            // `main` got id 0, so `y` gets id 1.
            assert!(matches!(&*tail, HirExpr::Var(n, 1) if n == "y"));
        }
        other => panic!("expected a block, got {:?}", other),
    }
}

#[test]
fn variable_used_before_binding_is_unresolved() {
    let body = lower_body(Expr::BinOp(
        Box::new(var("z")),
        BinOp::Add,
        Box::new(Expr::Lambda(
            vec![Param { name: "z".into(), ty: TypeExpr::Named("Foo".into()) }],
            Box::new(var("z")),
        )),
    ));
    match body {
        HirExpr::BinOp(lhs, HirBinOp::Add, rhs) => {
            assert!(matches!(&*lhs, HirExpr::Var(n, id) if n == "z" && *id == UNRESOLVED));
            match *rhs {
                HirExpr::Lambda(params, inner) => {
                    assert_eq!(params[0].name, "z");
                    assert!(
                        matches!(&params[0].ty, HirTypeRef::Named(n, id) if n == "Foo" && *id == UNRESOLVED)
                    );
                    assert!(matches!(&*inner, HirExpr::Var(n, 1) if n == "z"));
                }
                other => panic!("expected a lambda, got {:?}", other),
            }
        }
        other => panic!("expected an addition, got {:?}", other),
    }
}

#[test]
fn match_patterns_register_variables() {
    let body = lower_body(Expr::Match(
        Box::new(Expr::IntLit(3)),
        vec![MatchArm {
            pattern: Pattern::List(vec![Pattern::Var("h".into()), Pattern::Wildcard], Some("t".into())),
            guard: None,
            body: var("h"),
        }],
    ));
    match body {
        HirExpr::Match(_, arms) => {
            match &arms[0].pattern {
                HirPattern::Constructor(n, ps) => {
                    assert_eq!(n, "List");
                    assert_eq!(ps.len(), 2);
                }
                other => panic!("unexpected pattern {:?}", other),
            }
            assert!(matches!(&arms[0].body, HirExpr::Var(n, 1) if n == "h"));
        }
        other => panic!("expected a match, got {:?}", other),
    }
}

#[test]
fn select_lowers_to_first_arm_and_empty_select_to_empty_string() {
    let body = lower_body(Expr::Select(vec![
        SelectArm::Timeout { duration: Expr::IntLit(5), body: Expr::IntLit(7) },
        SelectArm::Timeout { duration: Expr::IntLit(6), body: Expr::IntLit(8) },
    ]));
    assert!(matches!(body, HirExpr::IntLit(7)));
    let empty = lower_body(Expr::Select(vec![]));
    assert!(matches!(empty, HirExpr::StrLit(s) if s.is_empty()));
}

#[test]
fn channel_new_becomes_unresolved_constructor_call() {
    let body = lower_body(Expr::ChannelNew {
        elem_type: TypeExpr::Named("Int".into()),
        buffer: Box::new(Expr::IntLit(4)),
    });
    match body {
        HirExpr::Call(callee, args) => {
            match &*callee {
                HirExpr::FieldAccess(inner, m) => {
                    assert_eq!(m, "new");
                    assert!(matches!(&**inner, HirExpr::Var(n, id) if n == "Channel" && *id == UNRESOLVED));
                }
                other => panic!("unexpected callee {:?}", other),
            }
            assert!(matches!(args[0], HirExpr::IntLit(4)));
        }
        other => panic!("expected a call, got {:?}", other),
    }
}

#[test]
fn hole_without_name_is_underscore() {
    let body = lower_body(Expr::Hole(None, None));
    assert!(matches!(body, HirExpr::Hole(n) if n == "_"));
    let named = lower_body(Expr::Hole(Some("h".into()), None));
    assert!(matches!(named, HirExpr::Hole(n) if n == "h"));
}

#[test]
fn uses_clause_is_sorted_without_repeats_and_cost_term_resolves() {
    let mut f = function(
        "fetch",
        vec![Param { name: "n".into(), ty: TypeExpr::Named("Int".into()) }],
        None,
    );
    f.uses_clause = Some(vec!["Net".into(), "Console".into(), "Net".into()]);
    f.cost_clause = Some(CostClause {
        compute: AstCostExpr::Linear("n".into()),
        alloc: AstCostExpr::Literal(0),
        io: AstCostExpr::Literal(0),
        parallel: AstCostExpr::Literal(0),
    });
    let hir = lower(&Module { name: String::new(), items: vec![Item::Function(f)] });
    match &hir.items[0] {
        HirItem::Function(h) => {
            assert_eq!(h.uses_clause, vec!["Console".to_string(), "Net".to_string()]);
            // `fetch` is id 0 and the parameter `n` id 1.
            assert!(matches!(h.cost_bound.as_deref(), Some(HirExpr::Var(n, 1)) if n == "n"));
            assert!(matches!(h.params[0].ty, HirTypeRef::Primitive(PrimitiveTy::Int)));
        }
        _ => panic!("expected a function"),
    }
}

#[test]
fn trait_lowers_as_capability_and_ids_continue_across_runs() {
    let module = Module {
        name: String::new(),
        items: vec![Item::TraitDef(CapabilityDef {
            name: "Show".into(),
            visibility: Visibility::Pub,
            type_params: vec!["T".into()],
            methods: vec![function("show", vec![], None)],
        })],
    };
    let mut lowering = Lowering::new();
    let first = lowering.lower_module(&module);
    match &first.items[0] {
        HirItem::CapabilityDef(c) => {
            assert_eq!(c.name, "Show");
            assert_eq!(c.def_id, 0);
            assert_eq!(c.type_params, vec!["T".to_string()]);
            // The method name is not a top-level name.
            assert_eq!(c.methods[0].def_id, UNRESOLVED);
        }
        _ => panic!("expected a capability"),
    }
    // A second module lowered with the same state keeps the earlier ids.
    let second = lowering.lower_module(&Module {
        name: String::new(),
        items: vec![Item::Function(function("other", vec![], Some(var("Show"))))],
    });
    match &second.items[0] {
        HirItem::Function(f) => {
            assert_eq!(f.def_id, 1);
            assert!(matches!(f.body.as_ref(), Some(HirExpr::Var(n, 0)) if n == "Show"));
        }
        _ => panic!("expected a function"),
    }
}
