use sporec_typeck::ast::{BinOp, Expr, Stmt};
use sporec_typeck::check::Checker;

fn spawn(e: Expr) -> Expr {
    Expr::Spawn(Box::new(e))
}

#[test]
fn no_spawn_counts_zero() {
    assert_eq!(Checker::count_spawns(&Expr::IntLit(1)), 0);
    assert_eq!(Checker::count_spawns(&Expr::Var("x".to_string())), 0);
}

#[test]
fn nested_spawns_are_all_counted() {
    let inner = spawn(Expr::IntLit(1));
    let outer = spawn(Expr::Call(Box::new(Expr::Var("f".to_string())), vec![inner]));
    assert_eq!(Checker::count_spawns(&outer), 2);
}

#[test]
fn spawns_in_lists_blocks_and_branches() {
    let list = Expr::List(vec![spawn(Expr::IntLit(1)), Expr::IntLit(2), spawn(Expr::IntLit(3))]);
    assert_eq!(Checker::count_spawns(&list), 2);

    let block = Expr::Block(
        vec![
            Stmt::Let("a".to_string(), None, spawn(Expr::IntLit(1))),
            Stmt::Expr(spawn(Expr::IntLit(2))),
        ],
        Some(Box::new(spawn(Expr::IntLit(3)))),
    );
    assert_eq!(Checker::count_spawns(&block), 3);

    let branch = Expr::If(
        Box::new(Expr::BoolLit(true)),
        Box::new(spawn(Expr::IntLit(1))),
        Some(Box::new(Expr::BinOp(
            Box::new(spawn(Expr::IntLit(2))),
            BinOp::Add,
            Box::new(spawn(Expr::IntLit(3))),
        ))),
    );
    assert_eq!(Checker::count_spawns(&branch), 3);
}
