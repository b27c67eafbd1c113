use std::rc::Rc;
use sporec_typeck::ast::{
    BinOp, BudgetClause, BudgetItem, Expr, FnDef, Item, MatchArm, Module, Param, Pattern, Span,
    Stmt, TypeExpr, Visibility,
};
use sporec_typeck::budget::{budget_context, budget_owner, check_module_budget_errors, observe_function, Shape};
use sporec_typeck::error::ErrorCode;

fn var(n: &str) -> Expr {
    Expr::Var(n.into())
}

fn call(f: &str, args: Vec<Expr>) -> Expr {
    Expr::Call(Box::new(var(f)), args)
}

fn function(name: &str, body: Expr, budget: Vec<(&str, u64)>) -> FnDef {
    FnDef {
        name: name.into(),
        visibility: Visibility::Private,
        type_params: vec![],
        params: vec![Param { name: "n".into(), ty: TypeExpr::Named("Int".into()) }],
        return_type: None,
        errors: vec![],
        uses_clause: None,
        where_clause: vec![],
        body: Some(body),
        cost_clause: None,
        is_unbounded: false,
        budget_clause: if budget.is_empty() {
            None
        } else {
            Some(BudgetClause {
                items: budget
                    .into_iter()
                    .map(|(f, l)| BudgetItem { field: f.into(), limit: l, span: None })
                    .collect(),
            })
        },
    }
}

fn sample_body() -> Expr {
    // if n > 0 { spawn work(n) } else { match n { _ => fact(n) } } ; ?todo
    Expr::Block(
        vec![Stmt::Expr(Expr::If(
            Box::new(Expr::BinOp(Box::new(var("n")), BinOp::Gt, Box::new(Expr::IntLit(0)))),
            Box::new(Expr::Spawn(Box::new(call("work", vec![var("n")])))),
            Some(Box::new(Expr::Match(
                Box::new(var("n")),
                vec![MatchArm { pattern: Pattern::Wildcard, guard: None, body: call("fact", vec![var("n")]) }],
            ))),
        ))],
        Some(Box::new(Expr::Hole(Some("todo".into()), None))),
    )
}

#[test]
fn shape_of_a_function_body() {
    let f = function("fact", sample_body(), vec![]);
    let s = observe_function(&f);
    assert_eq!(
        s,
        Shape { branches: 3, nesting: 2, recursion: 1, parallelism: 1, calls: 2, effects: 0, holes: 1 }
    );
    assert_eq!(s.observed("calls"), Some(2));
    assert_eq!(s.observed("speed"), None);
}

#[test]
fn parallel_scope_lanes_raise_parallelism() {
    let body = Expr::ParallelScope {
        lanes: Some(Box::new(Expr::IntLit(4))),
        body: Box::new(Expr::Spawn(Box::new(call("job", vec![])))),
    };
    let s = observe_function(&function("run", body, vec![]));
    assert_eq!(s.parallelism, 5);
    assert_eq!(s.nesting, 1);
}

#[test]
fn refinement_predicates_in_types_are_observed() {
    let pred = call("check", vec![var("x")]);
    let ty = TypeExpr::Refinement(Box::new(TypeExpr::Named("Int".into())), "x".into(), Rc::new(pred));
    let body = Expr::Hole(None, Some(ty));
    let s = observe_function(&function("h", body, vec![]));
    assert_eq!(s.holes, 1);
    assert_eq!(s.calls, 1);
}

#[test]
fn budget_errors_report_unknown_and_exceeded_fields() {
    let f = function(
        "fact",
        sample_body(),
        vec![("speed", 1), ("recursion", 0), ("branches", 10), ("holes", 0), ("calls", 1)],
    );
    let module = Module { name: String::new(), items: vec![Item::Other, Item::Function(f)] };
    let errors = check_module_budget_errors(&module);
    let got: Vec<(ErrorCode, String)> = errors.iter().map(|e| (e.code, e.message.clone())).collect();
    assert_eq!(
        got,
        vec![
            (ErrorCode::B0102, "function `fact` declares unknown budget field `speed`".to_string()),
            (ErrorCode::B0101, "function `fact` exceeds budget `calls`: observed 2 > limit 1".to_string()),
            (ErrorCode::B0202, "function `fact` exceeds budget `holes`: observed 1 > limit 0".to_string()),
            (ErrorCode::B0201, "function `fact` exceeds budget `recursion`: observed 1 > limit 0".to_string()),
        ]
    );
}

#[test]
fn unknown_field_keeps_its_span() {
    let mut f = function("g", Expr::IntLit(1), vec![]);
    f.budget_clause = Some(BudgetClause {
        items: vec![BudgetItem { field: "depth".into(), limit: 3, span: Some(Span { start: 4, end: 9 }) }],
    });
    let errors = check_module_budget_errors(&Module { name: String::new(), items: vec![Item::Function(f)] });
    assert_eq!(errors.len(), 1);
    assert_eq!(errors[0].span, Some(Span { start: 4, end: 9 }));
}

#[test]
fn functions_within_budget_have_no_errors() {
    let f = function("fact", sample_body(), vec![("recursion", 1), ("branches", 3), ("nesting", 5)]);
    assert!(check_module_budget_errors(&Module { name: String::new(), items: vec![Item::Function(f)] }).is_empty());
}

#[test]
fn budget_context_reports_remaining_limits() {
    let f = function("fact", sample_body(), vec![("branches", 5), ("calls", 1), ("speed", 2)]);
    let ctx = budget_context(&f).unwrap();
    assert_eq!(ctx.constraints.len(), 3);
    assert_eq!(ctx.constraints[2].field, "speed");
    assert_eq!(ctx.observations.len(), 2);
    assert_eq!(ctx.observations[0].observed, 3);
    assert_eq!(ctx.observations[0].remaining, Some(2));
    assert_eq!(ctx.observations[1].remaining, None);
    assert!(budget_context(&function("plain", Expr::IntLit(0), vec![])).is_none());
}

#[test]
fn budget_owner_is_the_last_budgeted_function_of_the_name() {
    let module = Module {
        name: "m".into(),
        items: vec![
            Item::Function(function("f", var("n"), vec![("depth", 3)])),
            Item::Function(function("g", var("n"), vec![])),
            Item::Const("K".into()),
            Item::Function(function("f", var("n"), vec![("holes", 1)])),
            Item::Function(function("f", var("n"), vec![])),
        ],
    };
    assert_eq!(budget_owner(&module, "f"), Some(3));
    assert_eq!(budget_owner(&module, "g"), None);
    assert_eq!(budget_owner(&module, "h"), None);
}
