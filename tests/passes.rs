use regionc::{
    block_variables_declared, eliminate_common_subexpressions, expr_eq, loop_invariant_motion, simplify_expression,
    simplify_statement, statement_returns, undeclared_variables, unreachable_code_elimination, variables_used, BinaryOp,
    Expr, Statement, SubexprGraph,
};

fn num(n: i32) -> Expr {
    Expr::Number(n)
}

fn var(s: &str) -> Expr {
    Expr::Variable(s.to_string())
}

fn bin(l: Expr, op: BinaryOp, r: Expr) -> Expr {
    Expr::Binary(Box::new(l), op, Box::new(r))
}

fn dbg<T: std::fmt::Debug>(t: &T) -> String {
    format!("{:?}", t)
}

#[test]
fn constant_folding() {
    assert_eq!(dbg(&simplify_expression(&bin(num(2), BinaryOp::Add, num(3)))), dbg(&num(5)));
    assert_eq!(dbg(&simplify_expression(&bin(num(4), BinaryOp::Mult, num(-3)))), dbg(&num(-12)));
    assert_eq!(dbg(&simplify_expression(&bin(num(1), BinaryOp::LessThan, num(2)))), dbg(&num(1)));
    assert_eq!(dbg(&simplify_expression(&bin(num(2), BinaryOp::LessThan, num(1)))), dbg(&num(0)));
    let nested = bin(bin(num(1), BinaryOp::Add, num(2)), BinaryOp::Mult, num(3));
    assert_eq!(dbg(&simplify_expression(&nested)), dbg(&num(9)));
}

#[test]
fn folding_that_would_overflow_is_left() {
    let e = bin(num(i32::MAX), BinaryOp::Add, num(1));
    assert_eq!(dbg(&simplify_expression(&e)), dbg(&e));
    let s = bin(num(5), BinaryOp::Sub, num(1));
    assert_eq!(dbg(&simplify_expression(&s)), dbg(&s));
}

#[test]
fn algebraic_identities() {
    assert_eq!(dbg(&simplify_expression(&bin(var("x"), BinaryOp::Add, num(0)))), dbg(&var("x")));
    assert_eq!(dbg(&simplify_expression(&bin(num(0), BinaryOp::Add, var("x")))), dbg(&var("x")));
    assert_eq!(dbg(&simplify_expression(&bin(var("x"), BinaryOp::Mult, num(0)))), dbg(&num(0)));
    assert_eq!(dbg(&simplify_expression(&bin(num(0), BinaryOp::Mult, var("x")))), dbg(&num(0)));
    assert_eq!(dbg(&simplify_expression(&bin(var("x"), BinaryOp::Mult, num(1)))), dbg(&var("x")));
    assert_eq!(dbg(&simplify_expression(&bin(num(1), BinaryOp::Mult, var("x")))), dbg(&var("x")));
    let keep = bin(var("x"), BinaryOp::Add, var("y"));
    assert_eq!(dbg(&simplify_expression(&keep)), dbg(&keep));
}

#[test]
fn inert_expression_statement_becomes_noop() {
    let s = Statement::Expression(Box::new(bin(var("x"), BinaryOp::Add, num(0))));
    assert_eq!(dbg(&simplify_statement(&s)), dbg(&Statement::Noop));
    let call = Statement::Expression(Box::new(Expr::Call("f".to_string(), vec![bin(num(1), BinaryOp::Add, num(1))])));
    assert_eq!(
        dbg(&simplify_statement(&call)),
        dbg(&Statement::Expression(Box::new(Expr::Call("f".to_string(), vec![num(2)]))))
    );
}

#[test]
fn returns_and_pruning() {
    let ret = Statement::Return(Box::new(num(0)));
    let both = Statement::IfElse(Box::new(var("c")), vec![ret.clone()], vec![ret.clone()]);
    let one = Statement::IfElse(Box::new(var("c")), vec![ret.clone()], vec![]);
    assert!(statement_returns(&ret));
    assert!(statement_returns(&both));
    assert!(!statement_returns(&one));
    assert!(!statement_returns(&Statement::If(Box::new(var("c")), vec![ret.clone()])));
    let after = Statement::Expression(Box::new(Expr::Call("blackbox".to_string(), vec![num(7)])));
    let body = vec![after.clone(), both.clone(), after.clone()];
    assert_eq!(unreachable_code_elimination(&body).len(), 2);
    let nested = vec![Statement::If(Box::new(var("c")), vec![ret.clone(), after.clone()]), after.clone()];
    let pruned = unreachable_code_elimination(&nested);
    assert_eq!(pruned.len(), 2);
    match &pruned[0] {
        Statement::If(_, b) => assert_eq!(b.len(), 1),
        _ => panic!("expected an if"),
    }
    assert_eq!(unreachable_code_elimination(&vec![]).len(), 0);
}

#[test]
fn use_def_analysis() {
    let e = Expr::MethodCall(Box::new(var("buf")), "borrow".to_string(), vec![var("n"), bin(var("i"), BinaryOp::Add, var("n"))]);
    assert_eq!(variables_used(&e), vec!["buf", "n", "i", "n"]);
    let body = vec![
        Statement::Let("a".to_string(), Box::new(num(1))),
        Statement::If(Box::new(var("a")), vec![Statement::Assignment("b".to_string(), Box::new(num(2)))]),
    ];
    assert_eq!(block_variables_declared(&body), vec!["a", "b"]);
    let used = vec!["x".to_string(), "a".to_string(), "x".to_string(), "z".to_string()];
    let declared = vec!["a".to_string()];
    assert_eq!(undeclared_variables(&used, &declared), vec!["x", "z"]);
}

#[test]
fn expression_equality_is_structural() {
    let a = Expr::Call("f".to_string(), vec![var("x"), num(1)]);
    let b = Expr::Call("f".to_string(), vec![var("x"), num(1)]);
    let c = Expr::Call("f".to_string(), vec![var("x"), num(2)]);
    assert!(expr_eq(&a, &b));
    assert!(!expr_eq(&a, &c));
    assert!(!expr_eq(&Expr::Array(vec![]), &Expr::Uninitialized));
}

#[test]
fn subexpr_graph_invalidation() {
    let mut g = SubexprGraph::new();
    g.variable_modified("c".to_string(), bin(var("a"), BinaryOp::Add, var("b")));
    g.variable_modified("d".to_string(), var("x"));
    assert_eq!(g.expr_is_repeated(&bin(var("a"), BinaryOp::Add, var("b"))), Some("c".to_string()));
    g.variable_modified("a".to_string(), num(9));
    assert_eq!(g.expr_is_repeated(&bin(var("a"), BinaryOp::Add, var("b"))), None);
    assert_eq!(g.expr_is_repeated(&var("x")), None);
    assert_eq!(g.copy_source(&"d".to_string()), Some("x".to_string()));
    assert_eq!(g.copy_source(&"c".to_string()), None);
    assert_eq!(g.expr_is_repeated(&num(9)), Some("a".to_string()));
}

#[test]
fn cse_does_not_leak_out_of_branches() {
    let sum = bin(var("x"), BinaryOp::Add, var("y"));
    let body = vec![
        Statement::If(Box::new(var("c")), vec![Statement::Let("t".to_string(), Box::new(sum.clone()))]),
        Statement::Let("u".to_string(), Box::new(sum.clone())),
    ];
    let out = eliminate_common_subexpressions(&body, SubexprGraph::new());
    assert_eq!(dbg(&out[1]), dbg(&Statement::Let("u".to_string(), Box::new(sum))));
}

#[test]
fn licm_hoists_invariant_and_numbers_temps() {
    let lp = Statement::ForLoop(
        Box::new(Statement::Let("i".to_string(), Box::new(num(0)))),
        Box::new(bin(var("i"), BinaryOp::LessThan, num(3))),
        Box::new(Statement::Assignment("i".to_string(), Box::new(bin(var("i"), BinaryOp::Add, num(1))))),
        vec![
            Statement::Assignment("s".to_string(), Box::new(bin(var("s"), BinaryOp::Add, bin(var("p"), BinaryOp::Mult, var("q"))))),
            Statement::Expression(Box::new(Expr::Call("g".to_string(), vec![var("p")]))),
        ],
    );
    let out = loop_invariant_motion(&vec![lp]);
    assert_eq!(out.len(), 3);
    assert_eq!(dbg(&out[0]), dbg(&Statement::Let("__temp_0".to_string(), Box::new(bin(var("p"), BinaryOp::Mult, var("q"))))));
    assert_eq!(dbg(&out[1]), dbg(&Statement::Let("__temp_1".to_string(), Box::new(Expr::Call("g".to_string(), vec![var("p")])))));
    match &out[2] {
        Statement::ForLoop(_, _, _, body) => {
            assert_eq!(dbg(&body[1]), dbg(&Statement::Expression(Box::new(var("__temp_1")))));
        },
        _ => panic!("expected the loop"),
    }
}
