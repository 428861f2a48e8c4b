//! Tests of the calculator.
use c1::calculator::Calculator;
use c1::syntree::{Expr, Root, Stmt};

#[test]
fn add() {
    let tree = Root::from_stmt(Stmt::add(4, 2));
    assert_eq!(Calculator::default().calc(&tree), 6);
}

#[test]
fn sub() {
    let tree = Root::from_stmt(Stmt::sub(4, 2));
    assert_eq!(Calculator::default().calc(&tree), 2);
}

#[test]
fn mul() {
    let tree = Root::from_stmt(Stmt::mul(4, 2));
    assert_eq!(Calculator::default().calc(&tree), 8);
}

#[test]
fn div() {
    let tree = Root::from_stmt(Stmt::div(4, 2));
    assert_eq!(Calculator::default().calc(&tree), 2);
}

#[test]
fn set() {
    let tree = Root {
        stmt_list: vec![Stmt::set('a', 1), Stmt::Expr(Expr::Var('a'))],
    };
    assert_eq!(Calculator::default().calc(&tree), 1);
}

#[test]
fn vars() {
    let tree = Root {
        stmt_list: vec![
            Stmt::set('i', 1),
            Stmt::set('j', 2),
            Stmt::Expr(Expr::Add(Box::new(Expr::Var('i')), Box::new(Expr::Var('j')))),
        ],
    };
    assert_eq!(Calculator::default().calc(&tree), 3);
}

// Division truncates towards zero, as Rust's integer division.
#[test]
fn div_truncates_towards_zero() {
    let tree = Root::from_stmt(Stmt::div(-7, 2));
    assert_eq!(Calculator::default().calc(&tree), -3);
}

// Unassigned variables read as 0.
#[test]
fn unassigned_variable_is_zero() {
    let tree = Root::from_stmt(Stmt::Expr(Expr::Var('z')));
    assert_eq!(Calculator::default().calc(&tree), 0);
}

// The result is that of the last statement; an assignment's value is the
// assigned value; variables keep their values across calls.
#[test]
fn last_statement_and_persistent_variables() {
    let mut calc = Calculator::default();
    let first = Root {
        stmt_list: vec![
            Stmt::set('a', 1),
            Stmt::Assign(
                'b',
                Expr::Mul(Box::new(Expr::Int(2)), Box::new(Expr::Int(3))),
            ),
        ],
    };
    assert_eq!(calc.calc(&first), 6);
    let second = Root::from_stmt(Stmt::Expr(Expr::Add(
        Box::new(Expr::Var('a')),
        Box::new(Expr::Var('b')),
    )));
    assert_eq!(calc.calc(&second), 7);
    // An empty program leaves the previous result.
    assert_eq!(calc.calc(&Root { stmt_list: vec![] }), 7);
}

// Nested expressions evaluate left to right with exact values.
#[test]
fn nested_expression() {
    let e = Expr::Sub(
        Box::new(Expr::Div(Box::new(Expr::Int(100)), Box::new(Expr::Int(-7)))),
        Box::new(Expr::Mul(Box::new(Expr::Int(3)), Box::new(Expr::Int(-4)))),
    );
    assert_eq!(Calculator::default().calc(&Root::from_stmt(Stmt::Expr(e))), -14 + 12);
}
