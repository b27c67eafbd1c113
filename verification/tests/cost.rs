use sporec_typeck::ast::{
    AstCostExpr, BinOp, CostClause, Expr, FnDef, Item, Module, Param, Stmt, TypeExpr, Visibility,
};
use sporec_typeck::cost::{
    add_cost, ast_cost_to_cost_expr, binop_compute_cost, classify_arg, cost_result_to_expr,
    exceeds_budget, is_io_function, max_cost, mul_cost, CallArg, CostAnalyzer, CostChecker,
    CostExpr, CostResult, CostVector,
};

#[test]
fn cost_expr_display() {
    let e = CostExpr::Add(
        Box::new(CostExpr::Var("n".into())),
        Box::new(CostExpr::Const(1)),
    );
    assert_eq!(e.to_string(), "(n + 1)");

    let e2 = CostExpr::Pow(Box::new(CostExpr::Var("n".into())), 2);
    assert_eq!(e2.to_string(), "n^2");

    let e3 = CostExpr::Log(Box::new(CostExpr::Var("n".into())));
    assert_eq!(e3.to_string(), "log(n)");
}

#[test]
fn classify_var_arg() {
    let arg = Expr::Var("x".into());
    assert!(matches!(classify_arg(&arg), CallArg::Same(ref n) if n == "x"));
}

#[test]
fn classify_decreasing_arg() {
    let arg = Expr::BinOp(
        Box::new(Expr::Var("n".into())),
        BinOp::Sub,
        Box::new(Expr::IntLit(1)),
    );
    assert!(matches!(classify_arg(&arg), CallArg::Decreasing));
}

#[test]
fn classify_other_arg() {
    let arg = Expr::IntLit(42);
    assert!(matches!(classify_arg(&arg), CallArg::Other));
}

#[test]
fn ast_cost_conversion() {
    let ast_ce = AstCostExpr::Linear("n".into());
    let ce = ast_cost_to_cost_expr(&ast_ce);
    assert_eq!(ce, CostExpr::Linear("n".into()));
}

#[test]
fn zero_cost() {
    let c = CostVector::zero();
    assert!(c.is_bounded());
    assert_eq!(c.compute, CostExpr::Const(0));
    assert_eq!(c.alloc, CostExpr::Const(0));
    assert_eq!(c.io, CostExpr::Const(0));
    assert_eq!(c.parallel, CostExpr::Const(0));
}

#[test]
fn sequential_composition() {
    let a = CostVector::constant(5, 2, 1, 0);
    let b = CostVector::constant(3, 4, 1, 0);
    let c = a.seq(&b);
    assert_eq!(c.compute, CostExpr::Const(8)); // sum
    assert_eq!(c.alloc, CostExpr::Const(4)); // max
    assert_eq!(c.io, CostExpr::Const(1)); // max
    assert_eq!(c.parallel, CostExpr::Const(0)); // max
}

#[test]
fn parallel_composition() {
    let a = CostVector::constant(5, 2, 1, 0);
    let b = CostVector::constant(3, 4, 1, 0);
    let c = a.par(&b);
    assert_eq!(c.compute, CostExpr::Const(5)); // max
    assert_eq!(c.alloc, CostExpr::Const(6)); // sum
    assert_eq!(c.parallel, CostExpr::Const(1)); // +1 for spawn
}

#[test]
fn unbounded_propagation() {
    let a = CostVector {
        compute: CostExpr::Unbounded,
        alloc: CostExpr::Const(1),
        io: CostExpr::Const(1),
        parallel: CostExpr::Const(0),
    };
    assert!(!a.is_bounded());
    let b = CostVector::constant(1, 1, 1, 0);
    let c = a.seq(&b);
    assert_eq!(c.compute, CostExpr::Unbounded);
}

#[test]
fn scale_by_factor() {
    let a = CostVector::constant(3, 2, 1, 0);
    let scaled = a.scale(&CostExpr::Const(10));
    assert_eq!(scaled.compute, CostExpr::Const(30));
    assert_eq!(scaled.alloc, CostExpr::Const(20));
    assert_eq!(scaled.io, CostExpr::Const(2)); // +1 for recursion depth
}

#[test]
fn cost_vector_display() {
    let c = CostVector::constant(5, 3, 1, 0);
    let s = c.to_string();
    assert_eq!(s, "cost [5, 3, 1, 0]");
}

#[test]
fn cost_vector_display_unbounded() {
    let c = CostVector {
        compute: CostExpr::Unbounded,
        alloc: CostExpr::Const(0),
        io: CostExpr::Const(1),
        parallel: CostExpr::Const(0),
    };
    let s = c.to_string();
    assert_eq!(s, "cost [\u{221e}, 0, 1, 0]");
}

#[test]
fn add_cost_identity() {
    assert_eq!(
        add_cost(&CostExpr::Const(0), &CostExpr::Const(7)),
        CostExpr::Const(7)
    );
    assert_eq!(
        add_cost(&CostExpr::Const(3), &CostExpr::Const(0)),
        CostExpr::Const(3)
    );
}

#[test]
fn mul_cost_identity_and_zero() {
    assert_eq!(
        mul_cost(&CostExpr::Const(1), &CostExpr::Const(42)),
        CostExpr::Const(42)
    );
    assert_eq!(
        mul_cost(&CostExpr::Const(0), &CostExpr::Const(42)),
        CostExpr::Const(0)
    );
}

#[test]
fn cost_result_to_expr_conversions() {
    assert_eq!(
        cost_result_to_expr(&CostResult::Constant(5)),
        CostExpr::Const(5)
    );
    assert_eq!(
        cost_result_to_expr(&CostResult::StructuralRecursion("n".into())),
        CostExpr::Linear("n".into())
    );
    assert_eq!(
        cost_result_to_expr(&CostResult::Unbounded),
        CostExpr::Unbounded
    );
    assert_eq!(
        cost_result_to_expr(&CostResult::Unknown("msg".into())),
        CostExpr::Unbounded
    );
}

#[test]
fn cost_checker_constant_function() {
    let mut analyzer = CostAnalyzer::new();
    // Manually insert a constant result to test the fallback path.
    analyzer
        .results_mut()
        .insert("foo".into(), CostResult::Constant(1));

    let mut checker = CostChecker::new();
    checker.check_all(&analyzer);

    let cv = checker.costs.get("foo").expect("foo should be analyzed");
    assert_eq!(cv.compute, CostExpr::Const(1));
    // Fallback: no AST → io/alloc/parallel default to 0.
    assert_eq!(cv.io, CostExpr::Const(0));
    assert_eq!(cv.alloc, CostExpr::Const(0));
    assert_eq!(cv.parallel, CostExpr::Const(0));
    assert!(cv.is_bounded());
}

#[test]
fn cost_checker_structural_function() {
    let mut analyzer = CostAnalyzer::new();
    analyzer
        .results_mut()
        .insert("bar".into(), CostResult::StructuralRecursion("n".into()));

    let mut checker = CostChecker::new();
    checker.check_all(&analyzer);

    let cv = checker.costs.get("bar").expect("bar should be analyzed");
    assert_eq!(cv.compute, CostExpr::Linear("n".into()));
    // Fallback: no AST walk → io defaults to 0.
    assert_eq!(cv.io, CostExpr::Const(0));
    assert!(cv.is_bounded());
}

/// Helper: create a fresh analyzer to use `analyze_expr_cost`.
fn expr_cost(expr: &Expr) -> CostVector {
    let analyzer = CostAnalyzer::new();
    analyzer.analyze_expr_cost(expr)
}

#[test]
fn pure_arithmetic_4d() {
    // `a + b * c`  (all int) → compute = 1+1 = 2, alloc = 0, io = 0, parallel = 0
    let expr = Expr::BinOp(
        Box::new(Expr::Var("a".into())),
        BinOp::Add,
        Box::new(Expr::BinOp(
            Box::new(Expr::Var("b".into())),
            BinOp::Mul,
            Box::new(Expr::Var("c".into())),
        )),
    );
    let cv = expr_cost(&expr);
    assert_eq!(cv.compute, CostExpr::Const(2));
    assert_eq!(cv.alloc, CostExpr::Const(0));
    assert_eq!(cv.io, CostExpr::Const(0));
    assert_eq!(cv.parallel, CostExpr::Const(0));
}

#[test]
fn float_div_cost() {
    // `1.0 / 2.0` → compute = 3 (float div)
    let expr = Expr::BinOp(
        Box::new(Expr::FloatLit(1.0f64.to_bits())),
        BinOp::Div,
        Box::new(Expr::FloatLit(2.0f64.to_bits())),
    );
    let cv = expr_cost(&expr);
    assert_eq!(cv.compute, CostExpr::Const(3));
    assert_eq!(cv.alloc, CostExpr::Const(0));
}

#[test]
fn int_div_cost() {
    // `10 / 3` → compute = 2 (int div)
    let expr = Expr::BinOp(
        Box::new(Expr::IntLit(10)),
        BinOp::Div,
        Box::new(Expr::IntLit(3)),
    );
    let cv = expr_cost(&expr);
    assert_eq!(cv.compute, CostExpr::Const(2));
}

#[test]
fn struct_creation_alloc() {
    // `Point { x: 1, y: 2, z: 3 }` → alloc = 3 (field count)
    let expr = Expr::StructLit(
        "Point".into(),
        vec![
            ("x".into(), Expr::IntLit(1)),
            ("y".into(), Expr::IntLit(2)),
            ("z".into(), Expr::IntLit(3)),
        ],
    );
    let cv = expr_cost(&expr);
    assert_eq!(cv.alloc, CostExpr::Const(3));
    assert_eq!(cv.compute, CostExpr::Const(0));
    assert_eq!(cv.io, CostExpr::Const(0));
}

#[test]
fn list_creation_alloc() {
    // `[1, 2, 3]` → alloc = 3 + 1 = 4
    let expr = Expr::List(vec![Expr::IntLit(1), Expr::IntLit(2), Expr::IntLit(3)]);
    let cv = expr_cost(&expr);
    assert_eq!(cv.alloc, CostExpr::Const(4));
}

#[test]
fn string_literal_alloc() {
    // 16-char string → alloc = ceil(16/8) = 2
    let expr = Expr::StrLit("hello, world!!!!".into());
    let cv = expr_cost(&expr);
    assert_eq!(cv.alloc, CostExpr::Const(2));
    assert_eq!(cv.compute, CostExpr::Const(0));
}

#[test]
fn println_call_io() {
    // `println(x)` → io = 1, compute = 3 (call overhead)
    let expr = Expr::Call(
        Box::new(Expr::Var("println".into())),
        vec![Expr::Var("x".into())],
    );
    let cv = expr_cost(&expr);
    assert_eq!(cv.io, CostExpr::Const(1));
    assert_eq!(cv.compute, CostExpr::Const(3));
    assert_eq!(cv.parallel, CostExpr::Const(0));
}

#[test]
fn pure_call_no_io() {
    // `foo(1)` → io = 0 (not in IO_FUNCTIONS)
    let expr = Expr::Call(Box::new(Expr::Var("foo".into())), vec![Expr::IntLit(1)]);
    let cv = expr_cost(&expr);
    assert_eq!(cv.io, CostExpr::Const(0));
    assert_eq!(cv.compute, CostExpr::Const(3)); // call overhead only
}

#[test]
fn spawn_parallel() {
    // `spawn(expr)` → parallel = 1
    let expr = Expr::Spawn(Box::new(Expr::IntLit(42)));
    let cv = expr_cost(&expr);
    assert_eq!(cv.parallel, CostExpr::Const(1));
}

#[test]
fn sequential_block_4d() {
    // Block: { let x = 1 + 2; println(x) }
    let block = Expr::Block(
        vec![
            Stmt::Let(
                "x".into(),
                None,
                Expr::BinOp(
                    Box::new(Expr::IntLit(1)),
                    BinOp::Add,
                    Box::new(Expr::IntLit(2)),
                ),
            ),
            Stmt::Expr(Expr::Call(
                Box::new(Expr::Var("println".into())),
                vec![Expr::Var("x".into())],
            )),
        ],
        None,
    );
    let cv = expr_cost(&block);
    assert_eq!(cv.compute, CostExpr::Const(4));
    assert_eq!(cv.alloc, CostExpr::Const(0));
    assert_eq!(cv.io, CostExpr::Const(1));
    assert_eq!(cv.parallel, CostExpr::Const(0));
}

#[test]
fn if_branch_max() {
    // if true { 1 + 2 } else { 3 * 4 }
    let expr = Expr::If(
        Box::new(Expr::BoolLit(true)),
        Box::new(Expr::BinOp(
            Box::new(Expr::IntLit(1)),
            BinOp::Add,
            Box::new(Expr::IntLit(2)),
        )),
        Some(Box::new(Expr::BinOp(
            Box::new(Expr::IntLit(3)),
            BinOp::Mul,
            Box::new(Expr::IntLit(4)),
        ))),
    );
    let cv = expr_cost(&expr);
    assert_eq!(cv.compute, CostExpr::Const(1));
    assert_eq!(cv.alloc, CostExpr::Const(0));
}

#[test]
fn io_function_detection() {
    assert!(is_io_function("print"));
    assert!(is_io_function("println"));
    assert!(is_io_function("read_line"));
    assert!(is_io_function("open"));
    assert!(!is_io_function("foo"));
    assert!(!is_io_function("map"));
}

#[test]
fn binop_compute_costs() {
    assert_eq!(binop_compute_cost(&BinOp::Add, false), 1);
    assert_eq!(binop_compute_cost(&BinOp::Add, true), 2);
    assert_eq!(binop_compute_cost(&BinOp::Div, false), 2);
    assert_eq!(binop_compute_cost(&BinOp::Div, true), 3);
    assert_eq!(binop_compute_cost(&BinOp::Eq, false), 1);
}

#[test]
fn var_read_zero_cost() {
    let cv = expr_cost(&Expr::Var("x".into()));
    assert_eq!(cv, CostVector::zero());
}

#[test]
fn test_add_linear_linear_same_var() {
    let result = add_cost(&CostExpr::Linear("n".into()), &CostExpr::Linear("n".into()));
    assert_eq!(
        result,
        CostExpr::Mul(
            Box::new(CostExpr::Const(2)),
            Box::new(CostExpr::Linear("n".into()))
        )
    );
}

#[test]
fn test_add_linear_const() {
    let result = add_cost(&CostExpr::Linear("n".into()), &CostExpr::Const(5));
    assert_eq!(
        result,
        CostExpr::Add(
            Box::new(CostExpr::Linear("n".into())),
            Box::new(CostExpr::Const(5))
        )
    );
}

#[test]
fn test_mul_const_linear() {
    let result = mul_cost(&CostExpr::Const(3), &CostExpr::Linear("n".into()));
    assert_eq!(
        result,
        CostExpr::Mul(
            Box::new(CostExpr::Const(3)),
            Box::new(CostExpr::Linear("n".into()))
        )
    );
}

#[test]
fn test_add_identity() {
    let lin = CostExpr::Linear("x".into());
    assert_eq!(add_cost(&lin, &CostExpr::Const(0)), lin);
    assert_eq!(add_cost(&CostExpr::Const(0), &lin), lin);
}

#[test]
fn test_mul_identity() {
    let lin = CostExpr::Linear("x".into());
    assert_eq!(mul_cost(&lin, &CostExpr::Const(1)), lin);
    assert_eq!(mul_cost(&CostExpr::Const(1), &lin), lin);
}

#[test]
fn test_unbounded_propagation() {
    let lin = CostExpr::Linear("x".into());
    assert_eq!(add_cost(&CostExpr::Unbounded, &lin), CostExpr::Unbounded);
    assert_eq!(add_cost(&lin, &CostExpr::Unbounded), CostExpr::Unbounded);
    assert_eq!(mul_cost(&CostExpr::Unbounded, &lin), CostExpr::Unbounded);
    assert_eq!(
        max_cost(&CostExpr::Unbounded, &CostExpr::Const(5)),
        CostExpr::Unbounded
    );
}

#[test]
fn test_add_linear_linear_diff_var() {
    let result = add_cost(&CostExpr::Linear("n".into()), &CostExpr::Linear("m".into()));
    assert_eq!(
        result,
        CostExpr::Add(
            Box::new(CostExpr::Linear("n".into())),
            Box::new(CostExpr::Linear("m".into()))
        )
    );
}

#[test]
fn test_max_preserves_symbolic() {
    let result = max_cost(&CostExpr::Linear("n".into()), &CostExpr::Const(5));
    assert_eq!(
        result,
        CostExpr::Max(
            Box::new(CostExpr::Linear("n".into())),
            Box::new(CostExpr::Const(5))
        )
    );
}

#[test]
fn test_exceeds_budget_structural_equality() {
    let expr = CostExpr::Linear("n".into());
    assert!(!exceeds_budget(&expr, &expr));
}

// ── further cases ──

fn var(n: &str) -> Expr {
    Expr::Var(n.into())
}

fn call(f: &str, args: Vec<Expr>) -> Expr {
    Expr::Call(Box::new(var(f)), args)
}

fn minus_one(n: &str) -> Expr {
    Expr::BinOp(Box::new(var(n)), BinOp::Sub, Box::new(Expr::IntLit(1)))
}

fn func(name: &str, params: &[&str], body: Option<Expr>) -> FnDef {
    FnDef {
        name: name.into(),
        visibility: Visibility::Pub,
        type_params: vec![],
        params: params.iter().map(|p| Param { name: (*p).into(), ty: TypeExpr::Named("Int".into()) }).collect(),
        return_type: None,
        errors: vec![],
        uses_clause: None,
        where_clause: vec![],
        body,
        cost_clause: None,
        is_unbounded: false,
        budget_clause: None,
    }
}

#[test]
fn exceeds_budget_cases() {
    assert!(exceeds_budget(&CostExpr::Const(5), &CostExpr::Const(4)));
    assert!(!exceeds_budget(&CostExpr::Const(4), &CostExpr::Const(4)));
    assert!(exceeds_budget(&CostExpr::Unbounded, &CostExpr::Const(100)));
    assert!(exceeds_budget(&CostExpr::Linear("n".into()), &CostExpr::Const(100)));
    assert!(!exceeds_budget(&CostExpr::Const(100), &CostExpr::Linear("n".into())));
    assert!(!exceeds_budget(&CostExpr::Unbounded, &CostExpr::Unbounded));
}

#[test]
fn saturating_constant_folding() {
    assert_eq!(
        add_cost(&CostExpr::Const(u64::MAX), &CostExpr::Const(2)),
        CostExpr::Const(u64::MAX)
    );
    assert_eq!(
        mul_cost(&CostExpr::Const(u64::MAX), &CostExpr::Const(2)),
        CostExpr::Const(u64::MAX)
    );
    assert_eq!(mul_cost(&CostExpr::Const(6), &CostExpr::Const(7)), CostExpr::Const(42));
    assert_eq!(max_cost(&CostExpr::Const(6), &CostExpr::Const(7)), CostExpr::Const(7));
}

#[test]
fn cost_expr_display_more() {
    let e = CostExpr::Max(
        Box::new(CostExpr::Mul(Box::new(CostExpr::Const(2)), Box::new(CostExpr::Linear("n".into())))),
        Box::new(CostExpr::Min(Box::new(CostExpr::Var("m".into())), Box::new(CostExpr::Const(120)))),
    );
    assert_eq!(e.to_string(), "max((2 * O(n)), min(m, 120))");
    assert_eq!(CostExpr::Unbounded.to_string(), "\u{221e}");
}

#[test]
fn structural_recursion_detected() {
    // fn fact(n) { fact(n - 1) }
    let f = func("fact", &["n"], Some(call("fact", vec![minus_one("n")])));
    let mut analyzer = CostAnalyzer::new();
    analyzer.analyze_function(&f);
    assert!(matches!(
        analyzer.results().get("fact"),
        Some(CostResult::StructuralRecursion(p)) if p == "n"
    ));
}

#[test]
fn structural_recursion_prefers_unchanged_others() {
    // fn f(a, b) { f(a - 1, b - 1); f(a, b - 1) } → b decreases, a unchanged only in some
    let body = Expr::Block(
        vec![Stmt::Expr(call("f", vec![minus_one("a"), minus_one("b")]))],
        Some(Box::new(call("f", vec![var("a"), minus_one("b")]))),
    );
    let f = func("f", &["a", "b"], Some(body));
    let mut analyzer = CostAnalyzer::new();
    analyzer.analyze_function(&f);
    assert!(matches!(
        analyzer.results().get("f"),
        Some(CostResult::StructuralRecursion(p)) if p == "b"
    ));
}

#[test]
fn unknown_recursion_is_reported() {
    let f = func("loop_", &["n"], Some(call("loop_", vec![var("n")])));
    let mut analyzer = CostAnalyzer::new();
    analyzer.analyze_function(&f);
    match analyzer.results().get("loop_") {
        Some(CostResult::Unknown(m)) => {
            assert_eq!(m, "cannot determine cost for recursive function `loop_`")
        }
        other => panic!("unexpected {other:?}"),
    }
}

#[test]
fn module_analysis_propagates_and_checks_budgets() {
    let helper = func("helper", &[], Some(Expr::IntLit(1)));
    let main = FnDef {
        name: "main".into(),
        visibility: Visibility::Pub,
        type_params: vec![],
        params: vec![],
        return_type: None,
        errors: vec![],
        uses_clause: None,
        where_clause: vec![],
        body: Some(Expr::Block(
            vec![Stmt::Expr(call("helper", vec![]))],
            Some(Box::new(call("println", vec![Expr::StrLit("hi".into())]))),
        )),
        cost_clause: Some(CostClause {
            compute: AstCostExpr::Literal(2),
            alloc: AstCostExpr::Literal(10),
            io: AstCostExpr::Literal(1),
            parallel: AstCostExpr::Literal(0),
        }),
        is_unbounded: false,
        budget_clause: None,
    };
    let module = Module { name: String::new(), items: vec![Item::Function(helper), Item::Other, Item::Function(main)] };
    let mut analyzer = CostAnalyzer::new();
    analyzer.analyze_module(&module);
    assert!(matches!(analyzer.results().get("helper"), Some(CostResult::Constant(1))));
    assert!(matches!(analyzer.results().get("main"), Some(CostResult::Declared(CostExpr::Const(2)))));
    // helper: 0 compute; main: helper call 3 + helper 0, println call 3 → compute 6 > 2
    assert_eq!(analyzer.violations().len(), 1);
    let (name, declared, actual) = &analyzer.violations()[0];
    assert_eq!(name, "main");
    assert_eq!(declared.compute, CostExpr::Const(2));
    assert_eq!(actual.compute, CostExpr::Const(6));
    assert_eq!(actual.io, CostExpr::Const(1));
}

#[test]
fn callee_constants_propagate() {
    let a = func("a", &[], Some(Expr::IntLit(0)));
    let b = func("b", &[], Some(Expr::Block(vec![Stmt::Expr(call("a", vec![]))], Some(Box::new(call("a", vec![]))))));
    let module = Module { name: String::new(), items: vec![Item::Function(a), Item::Function(b)] };
    let mut analyzer = CostAnalyzer::new();
    analyzer.analyze_module(&module);
    assert!(matches!(analyzer.results().get("b"), Some(CostResult::Constant(3))));
    assert!(analyzer.violations().is_empty());
}

#[test]
fn unbounded_function_has_unbounded_vector() {
    let mut f = func("u", &[], Some(Expr::IntLit(0)));
    f.is_unbounded = true;
    let module = Module { name: String::new(), items: vec![Item::Function(f)] };
    let mut analyzer = CostAnalyzer::new();
    analyzer.analyze_module(&module);
    assert!(matches!(analyzer.results().get("u"), Some(CostResult::Unbounded)));
    assert!(!analyzer.cost_vectors().get("u").unwrap().is_bounded());
}

#[test]
fn more_expression_costs() {
    let m = Expr::Match(
        Box::new(var("x")),
        vec![
            sporec_typeck::ast::MatchArm { pattern: sporec_typeck::ast::Pattern::Wildcard, guard: None, body: Expr::IntLit(1) },
            sporec_typeck::ast::MatchArm { pattern: sporec_typeck::ast::Pattern::Wildcard, guard: Some(var("g")), body: minus_one("y") },
        ],
    );
    assert_eq!(expr_cost(&m).compute, CostExpr::Const(3));
    let fs = Expr::FString(vec![
        sporec_typeck::ast::StrPart::Literal("a".into()),
        sporec_typeck::ast::StrPart::Expr(minus_one("n")),
    ]);
    let cv = expr_cost(&fs);
    assert_eq!(cv.compute, CostExpr::Const(1));
    assert_eq!(cv.alloc, CostExpr::Const(1));
    let lam = Expr::Lambda(
        vec![
            Param { name: "a".into(), ty: TypeExpr::Named("Int".into()) },
            Param { name: "b".into(), ty: TypeExpr::Named("Int".into()) },
        ],
        Box::new(Expr::IntLit(0)),
    );
    assert_eq!(expr_cost(&lam).alloc, CostExpr::Const(2));
    let perform = Expr::Perform { effect: "Console".into(), operation: "log".into(), args: vec![] };
    assert_eq!(expr_cost(&perform), CostVector::constant(1, 0, 1, 0));
    assert_eq!(expr_cost(&Expr::Hole(Some("h".into()), None)), CostVector::constant(1, 0, 0, 0));
}
