use regionc::{
    arrays_are_empty, clean_ast, clean_function_rounds, gen_code, parse, parse_single_region, strip_comments, BinaryOp, Expr, Region,
    RegionItem, Statement, Tokeniser,
};

fn parse_src(src: &str) -> Region {
    let code = strip_comments(src);
    let tokens = Tokeniser::tokenise("test.rg", &code).unwrap();
    parse_single_region(&tokens).unwrap()
}

fn compile(src: &str) -> String {
    let mut region = parse_src(src);
    clean_ast(&mut region).unwrap();
    assert!(arrays_are_empty(&region));
    gen_code(&region)
}

fn main_body(code: &str) -> &str {
    let start = code.find("fn main(").unwrap();
    &code[start..]
}

const ALGEBRAIC: &str = "region ExampleRegion { fn main(_) {
  let a = 1 + 0; blackbox(a);
  let a1 = a * 1; blackbox(a1);
  let b = 2 * 1; blackbox(b);
  let b1 = 0 + b; blackbox(b1);
  return 0;
}; }";

const CSE: &str = "region ExampleRegion {
  let a = blackbox(1); let b = blackbox(2); let c = a + b; let d = c;
  blackbox(c); blackbox(d); let e = d; a = 9; let f = a + b; blackbox(e); blackbox(f);
}";

const LICM: &str = "region ExampleRegion {
  let a = blackbox(1); let b = blackbox(2); let acc = 0;
  for (let i = 0; i < 10; i = i + 1) { acc = acc + a*b; };
  for (let i = 0; i < 10; i = i + 1) { a = a + 1; acc = acc + a*b; };
  blackbox(acc);
}";

#[test]
fn algebraic_simplification_scenario() {
    let code = compile(ALGEBRAIC);
    let body = main_body(&code);
    assert!(body.contains("let mut a = 1;"));
    assert!(body.contains("let mut b = 2;"));
    assert_eq!(body.matches("blackbox(").count(), 4);
    assert_eq!(body.matches("blackbox(py, (&a));").count(), 2);
    assert_eq!(body.matches("blackbox(py, (&b));").count(), 2);
    assert!(!body.contains(" + "));
    assert!(!body.contains(" * "));
}

#[test]
fn unreachable_code_scenario() {
    let code = compile("region R { fn main(_) { blackbox(3); return 0; blackbox(7); }; }");
    assert!(code.contains("blackbox(py, (&3));"));
    assert!(!code.contains("(&7)"));
    assert!(code.contains("return (0).to_pyany(py);"));
}

#[test]
fn cse_invalidation_scenario() {
    let code = compile(CSE);
    let body = main_body(&code);
    assert!(body.contains("let mut c = (a).to_usize(py) + (b).to_usize(py);"));
    assert!(body.contains("a = 9;"));
    assert!(body.contains("let mut f = (a).to_usize(py) + (b).to_usize(py);"));
    assert!(!body.contains("let mut f = c;"));
    assert_eq!(body.matches("blackbox(py, (&c));").count(), 3);
    assert!(!body.contains("(&d)"));
    assert!(!body.contains("(&e)"));
    assert!(body.contains("blackbox(py, (&f));"));
}

#[test]
fn copy_is_not_propagated_after_reassignment() {
    let code = compile("region R { fn main(x) { let c = blackbox(x); let d = c; c = 5; blackbox(d); blackbox(c); }; }");
    assert!(code.contains("blackbox(py, (&d));"));
    assert!(code.contains("let mut d = c;"));
}

#[test]
fn cse_replaces_repeated_expression() {
    let code = compile("region R { fn main(x) { let a = x + 1; let b = x + 1; blackbox(a); blackbox(b); }; }");
    assert_eq!(code.matches("blackbox(py, (&a));").count(), 2);
    assert!(!code.contains("(&b)"));
}

#[test]
fn cse_replaces_repeated_subexpression() {
    let code = compile("region R { fn main(x, y) { let t = x * y; let u = x * y + 1; blackbox(t); blackbox(u); }; }");
    assert!(code.contains("let mut u = (t).to_usize(py) + (1).to_usize(py);"));
}

#[test]
fn licm_scenario() {
    let code = compile(LICM);
    let body = main_body(&code);
    let temp = body.find("let mut __temp_0 = (a).to_usize(py) * (b).to_usize(py);").unwrap();
    let first_loop = body.find("while").unwrap();
    assert!(temp < first_loop);
    assert!(body[first_loop..].contains("acc = (acc).to_usize(py) + (__temp_0).to_usize(py);"));
    let second_loop = first_loop + 1 + body[first_loop + 1..].find("while").unwrap();
    let second = &body[second_loop..];
    assert!(second.contains("((a).to_usize(py) * (b).to_usize(py))"));
    assert!(!body[first_loop..second_loop].contains("__temp_1"));
    assert_eq!(body.matches("let mut __temp_").count(), 1);
}

#[test]
fn undeclared_variable_scenario() {
    let mut region = parse_src("region R { fn main(_) { let a = x + x; return a; }; }");
    let err = clean_ast(&mut region).unwrap_err();
    assert_eq!(err, vec!["x".to_string()]);
}

#[test]
fn undeclared_in_nested_block() {
    let mut region = parse_src("region R { fn main(n) { if n { let q = y; blackbox(q); }; }; }");
    assert_eq!(clean_ast(&mut region).unwrap_err(), vec!["y".to_string()]);
}

#[test]
fn cleanup_is_stable_after_three_rounds() {
    for src in [ALGEBRAIC, CSE, LICM] {
        let mut region = parse_src(src);
        clean_ast(&mut region).unwrap();
        let mut lifted = parse_src(src);
        lifted = regionc::move_toplevel_statements_to_function(&lifted);
        for item in &lifted.body {
            if let RegionItem::Function(f) = item {
                let three = clean_function_rounds(f, 3).unwrap();
                let four = clean_function_rounds(f, 4).unwrap();
                assert_eq!(format!("{:?}", three), format!("{:?}", four));
            }
        }
    }
}

#[test]
fn toplevel_statements_become_main() {
    let region = parse_src("region R { fn f(x) { return x; }; let a = 1; blackbox(a); }");
    let lifted = regionc::move_toplevel_statements_to_function(&region);
    assert_eq!(lifted.body.len(), 2);
    match &lifted.body[1] {
        RegionItem::Function(f) => {
            assert_eq!(f.name, "main");
            assert!(f.params.is_empty());
            assert_eq!(f.body.len(), 2);
        },
        _ => panic!("expected a function"),
    }
}

#[test]
fn every_function_ends_in_return_after_cleanup() {
    let mut region = parse_src("region R { fn f(x) { blackbox(x); }; }");
    clean_ast(&mut region).unwrap();
    match &region.body[0] {
        RegionItem::Function(f) => assert!(matches!(f.body.last(), Some(Statement::Return(_)))),
        _ => panic!("expected a function"),
    }
}

#[test]
fn unused_variable_keeps_side_effect() {
    let code = compile("region R { fn main(_) { let unused = blackbox(5); return 0; }; }");
    assert!(code.contains("blackbox(py, (&5));"));
    assert!(!code.contains("let mut unused"));
}

#[test]
fn parse_precedence_and_associativity() {
    let region = parse_src("region R { let x = 1 + 2 * 3 < 4 - 5 - 6; }");
    let stmt = match &region.body[0] {
        RegionItem::Statement(s) => s,
        _ => panic!("expected a statement"),
    };
    let expected = Statement::Let(
        "x".to_string(),
        Box::new(Expr::Binary(
            Box::new(Expr::Binary(
                Box::new(Expr::Number(1)),
                BinaryOp::Add,
                Box::new(Expr::Binary(Box::new(Expr::Number(2)), BinaryOp::Mult, Box::new(Expr::Number(3)))),
            )),
            BinaryOp::LessThan,
            Box::new(Expr::Binary(
                Box::new(Expr::Binary(Box::new(Expr::Number(4)), BinaryOp::Sub, Box::new(Expr::Number(5)))),
                BinaryOp::Sub,
                Box::new(Expr::Number(6)),
            )),
        )),
    );
    assert_eq!(format!("{:?}", stmt), format!("{:?}", expected));
}

#[test]
fn parse_data_management_example() {
    let src = "region DataManagement {
    fn processStream(streamSize) {
        let blocksize = 10;
        let streamPtr = allocate(streamSize);
        let blocks = [];
        let i = 0;
        for (i = 0; i < streamSize; i = i + blocksize) {
            let blockPtr = streamPtr.borrow(blocksize, i);
            blocks.append(blockPtr);
        };
        return blocks;
    };
}";
    let region = parse_src(src);
    assert_eq!(region.name, "DataManagement");
    let code = compile(src);
    assert!(code.contains("m.add_function(wrap_pyfunction!(processStream, m)?)?;"));
    assert!(code.contains("(streamPtr).to_buffer(py).borrow(py, (&blocksize), (&i))"));
    assert!(code.contains("blocks.call_method(py, \"append\", ((&blockPtr),), None).unwrap()"));
    assert!(code.contains("PyList::new(py, Vec::<Buffer>::new()).unwrap().unbind()"));
}

#[test]
fn parse_if_else() {
    let region = parse_src("region R { fn f(x, y) { if x < y { return 1; } else { return 2; }; }; }");
    match &region.body[0] {
        RegionItem::Function(f) => {
            assert_eq!(f.params.len(), 2);
            assert!(matches!(f.body[0], Statement::IfElse(_, _, _)));
        },
        _ => panic!("expected a function"),
    }
}

#[test]
fn parse_failures() {
    for src in ["region R { let = 1; }", "region R { fn f( { }; }", "region { }", "region R { } extra", "let a = 1;",
        "region R { let a = 2147483648; }"] {
        let tokens = Tokeniser::tokenise("t", src).unwrap();
        assert_eq!(parse(&tokens).unwrap_err(), "Failed to parse tokens");
    }
}

#[test]
fn parse_number_limits() {
    let region = parse_src("region R { let a = -2147483648; let b = 2147483647; }");
    match &region.body[0] {
        RegionItem::Statement(Statement::Let(_, e)) => assert!(matches!(**e, Expr::Number(-2147483648))),
        _ => panic!("expected a let"),
    }
}

#[test]
fn parse_is_deterministic() {
    let tokens = Tokeniser::tokenise("t", CSE).unwrap();
    let a = parse(&tokens).unwrap();
    let b = parse(&tokens.clone()).unwrap();
    assert_eq!(format!("{:?}", a), format!("{:?}", b));
}

#[test]
fn generated_module_text() {
    let region = parse_src("region R { fn f(x) { return x + 1; }; }");
    let code = gen_code(&region);
    assert_eq!(
        code,
        "use pyo3::types::PyList;\nuse pyo3::prelude::*;\n\nuse crate::util::*;\n\n#[pymodule]\nfn R(m: &Bound<'_, PyModule>) -> PyResult<()> {\nm.add_class::<Buffer>()?;\nm.add_function(wrap_pyfunction!(f, m)?)?;\nOk(())\n}\n\n#[pyfunction]\nfn f(py: Python<'_>, x: Py<PyAny>) -> Py<PyAny> {\nreturn ((x).to_usize(py) + (1).to_usize(py)).to_pyany(py);\n}\n"
    );
}

#[test]
fn generated_function_gets_return_none() {
    let region = parse_src("region R { fn g() { blackbox(1); }; }");
    let code = gen_code(&region);
    assert!(code.contains("fn g(py: Python<'_>) -> Py<PyAny> {\nblackbox(py, (&1));\nreturn (py.None()).to_pyany(py);\n}\n"));
}

#[test]
fn generated_if_and_loop() {
    let region = parse_src("region R { fn g(n) { if n { blackbox(n); }; for (let i = 0; i < n; i = i + 1) { blackbox(i); }; return 0; }; }");
    let code = gen_code(&region);
    assert!(code.contains("if (n).to_pyany(py).is_truthy(py).unwrap() {\nblackbox(py, (&n));\n}"));
    assert!(code.contains("let mut i = 0;\nwhile (i).to_usize(py) < (n).to_usize(py) {\nblackbox(py, (&i));\ni = (i).to_usize(py) + (1).to_usize(py);\n}"));
}

#[test]
fn arrays_with_elements_are_refused() {
    let region = Region {
        name: "R".to_string(),
        body: vec![RegionItem::Statement(Statement::Let(
            "a".to_string(),
            Box::new(Expr::Array(vec![Expr::Number(1)])),
        ))],
    };
    assert!(!arrays_are_empty(&region));
    assert!(arrays_are_empty(&parse_src("region R { let a = []; }")));
}

#[test]
fn program_of_several_regions() {
    let tokens = Tokeniser::tokenise("t", "region A { let a = 1; } region B { fn f(x) { return x; }; }").unwrap();
    let regions = regionc::parse(&tokens).unwrap();
    assert_eq!(regions.len(), 2);
    assert_eq!(regions[0].name, "A");
    assert_eq!(regions[1].name, "B");
    assert_eq!(regionc::parse(&vec![]).unwrap().len(), 0);
    let bad = Tokeniser::tokenise("t", "region A { } let").unwrap();
    assert_eq!(regionc::parse(&bad).unwrap_err(), "Failed to parse tokens");
}

#[test]
fn copy_is_dropped_for_variables_a_loop_assigns() {
    let code = compile("region R { fn main(z) { let acc = z; for (let i = 0; i < 3; i = i + 1) { acc = acc + 1; }; return acc; }; }");
    assert!(code.contains("acc = (acc).to_usize(py) + (1).to_usize(py);"));
    assert!(code.contains("return (acc).to_pyany(py);"));
    assert!(!code.contains("(z).to_usize(py) + (1)"));
}

#[test]
fn copy_is_dropped_for_variables_a_branch_assigns() {
    let code = compile("region R { fn main(c, k) { let d = c; if k { d = 5; }; return d; }; }");
    assert!(code.contains("return (d).to_pyany(py);"));
}

#[test]
fn copy_propagates_into_unaffected_loop() {
    let code = compile("region R { fn main(c, n) { let d = c; let s = 0; for (let i = 0; i < n; i = i + 1) { s = s + d; }; return s; }; }");
    assert!(code.contains("s = (s).to_usize(py) + (c).to_usize(py);"));
}
