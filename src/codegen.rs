//! Code generation: the text of an extension module that exposes each function
//! of a region to the host runtime.
use vstd::prelude::*;
use vstd::string::*;

use crate::ast::{
    exprs_view, items_view, lemma_exprs_view, lemma_stmts_view, lemma_stmts_view_push, param_names, stmts_view, BinaryOp, Expr, ExprV,
    Function, FunctionV, ItemV, Region, RegionItem, RegionV, Statement, StmtV,
};
use crate::clean::move_toplevel_statements_to_function;
use crate::passes::{functions_of, lift_toplevel, return_none, statements_of};
use crate::text::{int_text, push_decimal, push_string, push_text};

verus! {

broadcast use lemma_exprs_view, lemma_stmts_view;

/// Whether every array literal in an expression is empty.
pub open spec fn arrays_empty(e: ExprV) -> bool
    decreases e,
{
    match e {
        ExprV::Array(items) => items.len() == 0,
        ExprV::Call(_, args) => arrays_empty_all(args),
        ExprV::Binary(l, _, r) => arrays_empty(*l) && arrays_empty(*r),
        ExprV::MethodCall(o, _, args) => arrays_empty(*o) && arrays_empty_all(args),
        _ => true,
    }
}

pub open spec fn arrays_empty_all(s: Seq<ExprV>) -> bool
    decreases s,
{
    s.len() == 0 || (arrays_empty(s[0]) && arrays_empty_all(s.subrange(1, s.len() as int)))
}

pub open spec fn arrays_empty_stmt(s: StmtV) -> bool
    decreases s,
{
    match s {
        StmtV::Noop => true,
        StmtV::Let(_, e) => arrays_empty(e),
        StmtV::Return(e) => arrays_empty(e),
        StmtV::Expression(e) => arrays_empty(e),
        StmtV::Assignment(_, e) => arrays_empty(e),
        StmtV::Call(_, args) => arrays_empty_all(args),
        StmtV::If(c, b) => arrays_empty(c) && arrays_empty_block(b),
        StmtV::IfElse(c, a, b) => arrays_empty(c) && arrays_empty_block(a) && arrays_empty_block(b),
        StmtV::ForLoop(i, c, u, b) => arrays_empty_stmt(*i) && arrays_empty(c) && arrays_empty_stmt(*u)
            && arrays_empty_block(b),
    }
}

pub open spec fn arrays_empty_block(b: Seq<StmtV>) -> bool
    decreases b,
{
    b.len() == 0 || (arrays_empty_stmt(b[0]) && arrays_empty_block(b.subrange(1, b.len() as int)))
}

pub open spec fn arrays_empty_items(items: Seq<ItemV>) -> bool {
    forall|i: int| 0 <= i < items.len() ==> match #[trigger] items[i] {
        ItemV::Function(f) => arrays_empty_block(f.body),
        ItemV::Statement(s) => arrays_empty_stmt(s),
    }
}

/// Whether a region holds array literals with elements, which code generation refuses.
pub open spec fn arrays_empty_region(r: RegionV) -> bool {
    arrays_empty_items(r.body)
}

/// Functions that take no host-runtime handle.
pub open spec fn takes_no_host(f: Seq<char>) -> bool {
    f == "append"@
}

/// Methods of the host's built-in `Buffer` type.
pub open spec fn is_buffer_method(m: Seq<char>) -> bool {
    m == "free"@ || m == "borrow"@ || m == "borrow_mut"@
}

pub open spec fn op_text(op: BinaryOp) -> Seq<char> {
    match op {
        BinaryOp::Add => "+"@,
        BinaryOp::Sub => "-"@,
        BinaryOp::Mult => "*"@,
        BinaryOp::Div => "/"@,
        BinaryOp::LessThan => "<"@,
        BinaryOp::GreaterThan => ">"@,
        BinaryOp::LessThanOrEqual => "<="@,
        BinaryOp::GreaterThanOrEqual => ">="@,
    }
}

/// The text of an expression.
pub open spec fn gen_expr(e: ExprV) -> Seq<char>
    decreases e,
{
    match e {
        ExprV::Uninitialized => "py.None()"@,
        ExprV::Number(n) => int_text(n as int),
        ExprV::StringLiteral(s) => "\""@ + s + "\""@,
        ExprV::Variable(v) => v,
        ExprV::Call(n, args) => n + "("@ + call_args(n, args.len(), args_text(args)) + ")"@,
        ExprV::Array(_) => "PyList::new(py, Vec::<Buffer>::new()).unwrap().unbind()"@,
        ExprV::Binary(l, op, r) => "("@ + gen_expr(*l) + ").to_usize(py) "@ + op_text(op) + " ("@ + gen_expr(*r)
            + ").to_usize(py)"@,
        ExprV::MethodCall(o, m, args) => if is_buffer_method(m) {
            "("@ + gen_expr(*o) + ").to_buffer(py)."@ + m + "("@ + call_args(m, args.len(), args_text(args)) + ")"@
        } else {
            gen_expr(*o) + ".call_method(py, \""@ + m + "\", ("@ + call_args(m, args.len(), args_text(args)) + ",), None).unwrap()"@
        },
    }
}

/// Arguments, each as `(&text)`, separated by `, `.
pub open spec fn args_text(args: Seq<ExprV>) -> Seq<char>
    decreases args,
{
    if args.len() == 0 {
        Seq::empty()
    } else if args.len() == 1 {
        "(&"@ + gen_expr(args[0]) + ")"@
    } else {
        "(&"@ + gen_expr(args[0]) + "), "@ + args_text(args.subrange(1, args.len() as int))
    }
}

/// The argument list of a call to `f` with `n` arguments whose text is `text`:
/// the host handle `py` first, unless `f` takes none.
pub open spec fn call_args(f: Seq<char>, n: nat, text: Seq<char>) -> Seq<char> {
    if takes_no_host(f) {
        text
    } else if n == 0 {
        "py"@
    } else {
        "py, "@ + text
    }
}

/// The text of a statement.
pub open spec fn gen_stmt(s: StmtV) -> Seq<char>
    decreases s,
{
    match s {
        StmtV::Noop => Seq::empty(),
        StmtV::Let(n, e) => "let mut "@ + n + " = "@ + gen_expr(e) + ";"@,
        StmtV::Return(e) => "return ("@ + gen_expr(e) + ").to_pyany(py);"@,
        StmtV::Expression(e) => gen_expr(e) + ";"@,
        StmtV::Call(n, args) => n + "("@ + call_args(n, args.len(), args_text(args)) + ");"@,
        StmtV::If(c, b) => "if ("@ + gen_expr(c) + ").to_pyany(py).is_truthy(py).unwrap() {\n"@ + gen_block(b) + "}"@,
        StmtV::IfElse(c, a, b) => "if ("@ + gen_expr(c) + ").to_pyany(py).is_truthy(py).unwrap() {\n"@
            + gen_block(a) + "} else {\n"@ + gen_block(b) + "}"@,
        StmtV::ForLoop(i, c, u, b) => gen_stmt(*i) + "\nwhile "@ + gen_expr(c) + " {\n"@ + gen_block(b)
            + gen_stmt(*u) + "\n}"@,
        StmtV::Assignment(n, e) => n + " = "@ + gen_expr(e) + ";"@,
    }
}

/// The text of a block: each statement followed by a newline.
pub open spec fn gen_block(b: Seq<StmtV>) -> Seq<char>
    decreases b,
{
    if b.len() == 0 {
        Seq::empty()
    } else {
        gen_stmt(b[0]) + "\n"@ + gen_block(b.subrange(1, b.len() as int))
    }
}

/// A body that ends in a `Return`, adding `return None` where it does not.
pub open spec fn with_return(b: Seq<StmtV>) -> Seq<StmtV> {
    if b.len() > 0 && b.last() is Return { b } else { b.push(return_none()) }
}

pub open spec fn params_text(ps: Seq<Seq<char>>) -> Seq<char>
    decreases ps.len(),
{
    if ps.len() == 0 { Seq::empty() } else { params_text(ps.drop_last()) + ", "@ + ps.last() + ": Py<PyAny>"@ }
}

/// The text of a function: a host entry point taking the runtime handle and
/// one dynamic value per parameter.
pub open spec fn gen_function(f: FunctionV) -> Seq<char> {
    "#[pyfunction]\nfn "@ + f.name + "(py: Python<'_>"@ + params_text(f.params) + ") -> Py<PyAny> {\n"@
        + gen_block(with_return(f.body)) + "}\n"@
}

pub open spec fn item_name(i: ItemV) -> Seq<char> {
    match i {
        ItemV::Function(f) => f.name,
        ItemV::Statement(_) => Seq::empty(),
    }
}

/// One registration line per function.
pub open spec fn registrations(items: Seq<ItemV>) -> Seq<char>
    decreases items.len(),
{
    if items.len() == 0 {
        Seq::empty()
    } else {
        registrations(items.drop_last()) + "m.add_function(wrap_pyfunction!("@ + item_name(items.last())
            + ", m)?)?;\n"@
    }
}

pub open spec fn functions_text(items: Seq<ItemV>) -> Seq<char>
    decreases items.len(),
{
    if items.len() == 0 {
        Seq::empty()
    } else {
        functions_text(items.drop_last()) + match items.last() {
            ItemV::Function(f) => gen_function(f),
            ItemV::Statement(_) => Seq::empty(),
        }
    }
}

/// The header that pulls in the runtime support library.
pub open spec fn header() -> Seq<char> {
    "use pyo3::types::PyList;\nuse pyo3::prelude::*;\n\nuse crate::util::*;\n\n"@
}

/// The text of the module for a region whose bare statements are already lifted.
pub open spec fn gen_module(r: RegionV) -> Seq<char> {
    header() + "#[pymodule]\nfn "@ + r.name + "(m: &Bound<'_, PyModule>) -> PyResult<()> {\nm.add_class::<Buffer>()?;\n"@
        + registrations(r.body) + "Ok(())\n}\n\n"@ + functions_text(r.body)
}

/// The generated module for a region.
pub open spec fn gen_region(r: RegionV) -> Seq<char> {
    gen_module(lift_toplevel(r))
}

fn text_eq(s: &String, t: &str) -> (r: bool)
    ensures
        r == (s@ == t@),
{
    *s == String::from_str(t)
}

impl BinaryOp {
    /// Appends the operator's text.
    pub fn gen_code(&self, out: &mut String)
        ensures
            final(out)@ == old(out)@ + op_text(*self),
    {
        let t = match self {
            BinaryOp::Add => "+",
            BinaryOp::Sub => "-",
            BinaryOp::Mult => "*",
            BinaryOp::Div => "/",
            BinaryOp::LessThan => "<",
            BinaryOp::GreaterThan => ">",
            BinaryOp::LessThanOrEqual => "<=",
            BinaryOp::GreaterThanOrEqual => ">=",
        };
        push_text(out, t);
    }
}

fn emit_args(out: &mut String, args: &Vec<Expr>)
    requires
        arrays_empty_all(exprs_view(args@)),
    ensures
        final(out)@ == old(out)@ + args_text(exprs_view(args@)),
    decreases args@, 0nat,
{
    let ghost all = exprs_view(args@);
    let ghost start = out@;
    let mut i: usize = 0;
    assert(all.subrange(0, all.len() as int) =~= all);
    while i < args.len()
        invariant
            i <= args@.len(),
            all == exprs_view(args@),
            arrays_empty_all(all.subrange(i as int, all.len() as int)),
            i < args@.len() ==> out@ + args_text(all.subrange(i as int, all.len() as int)) == start + args_text(all),
            i == args@.len() ==> out@ == start + args_text(all),
            i == 0 ==> out@ == start,
        decreases args@.len() - i,
    {
        assert(decreases_to!(args@ => args@[i as int]));
        let ghost before = out@;
        let ghost rest = all.subrange(i as int, all.len() as int);
        assert(rest.subrange(1, rest.len() as int) =~= all.subrange(i as int + 1, all.len() as int));
        assert(rest[0] == args@[i as int]@);
        push_text(out, "(&");
        args[i].gen_code(out);
        if i + 1 < args.len() {
            push_text(out, "), ");
            assert(before + args_text(rest) =~= out@ + args_text(rest.subrange(1, rest.len() as int)));
        } else {
            push_text(out, ")");
            assert(rest.len() == 1);
            assert(before + args_text(rest) =~= out@);
        }
        i = i + 1;
    }
    if args.len() == 0 {
        assert(out@ =~= start + args_text(all));
    }
}

/// Appends the argument list of a call to `f`.
fn format_args(out: &mut String, f: &String, args: &Vec<Expr>)
    requires
        arrays_empty_all(exprs_view(args@)),
    ensures
        final(out)@ == old(out)@ + call_args(f@, args@.len(), args_text(exprs_view(args@))),
    decreases args@, 1nat,
{
    let ghost start = out@;
    if text_eq(f, "append") {
        emit_args(out, args);
    } else if args.len() == 0 {
        push_text(out, "py");
    } else {
        push_text(out, "py, ");
        emit_args(out, args);
        assert(out@ =~= start + ("py, "@ + args_text(exprs_view(args@))));
    }
}

impl Expr {
    /// Appends the text of the expression.
    #[verifier::rlimit(100)]
    pub fn gen_code(&self, out: &mut String)
        requires
            arrays_empty(self@),
        ensures
            final(out)@ == old(out)@ + gen_expr(self@),
        decreases self, 0nat,
    {
        let ghost start = out@;
        match self {
            Expr::Uninitialized => push_text(out, "py.None()"),
            Expr::Number(n) => push_decimal(out, *n as i64),
            Expr::StringLiteral(s) => {
                push_text(out, "\"");
                push_string(out, s);
                push_text(out, "\"");
                assert(out@ =~= start + gen_expr(self@));
            },
            Expr::Variable(v) => push_string(out, v),
            Expr::Call(n, args) => {
                push_string(out, n);
                push_text(out, "(");
                format_args(out, n, args);
                push_text(out, ")");
                assert(out@ =~= start + gen_expr(self@));
            },
            Expr::Array(_) => push_text(out, "PyList::new(py, Vec::<Buffer>::new()).unwrap().unbind()"),
            Expr::Binary(l, op, r) => {
                push_text(out, "(");
                l.gen_code(out);
                push_text(out, ").to_usize(py) ");
                op.gen_code(out);
                push_text(out, " (");
                r.gen_code(out);
                push_text(out, ").to_usize(py)");
                assert(out@ =~= start + gen_expr(self@));
            },
            Expr::MethodCall(o, m, args) => {
                if text_eq(m, "free") || text_eq(m, "borrow") || text_eq(m, "borrow_mut") {
                    push_text(out, "(");
                    o.gen_code(out);
                    push_text(out, ").to_buffer(py).");
                    push_string(out, m);
                    push_text(out, "(");
                    format_args(out, m, args);
                    push_text(out, ")");
                } else {
                    o.gen_code(out);
                    push_text(out, ".call_method(py, \"");
                    push_string(out, m);
                    push_text(out, "\", (");
                    format_args(out, m, args);
                    push_text(out, ",), None).unwrap()");
                }
                assert(out@ =~= start + gen_expr(self@));
            },
        }
    }
}

impl Statement {
    /// Appends the text of the statement.
    pub fn gen_code(&self, out: &mut String)
        requires
            arrays_empty_stmt(self@),
        ensures
            final(out)@ == old(out)@ + gen_stmt(self@),
        decreases self,
    {
        let ghost start = out@;
        match self {
            Statement::Noop => {
                assert(out@ =~= start + gen_stmt(self@));
            },
            Statement::Let(n, e) => {
                push_text(out, "let mut ");
                push_string(out, n);
                push_text(out, " = ");
                e.gen_code(out);
                push_text(out, ";");
            },
            Statement::Return(e) => {
                push_text(out, "return (");
                e.gen_code(out);
                push_text(out, ").to_pyany(py);");
            },
            Statement::Expression(e) => {
                e.gen_code(out);
                push_text(out, ";");
            },
            Statement::Call(n, args) => {
                push_string(out, n);
                push_text(out, "(");
                format_args(out, n, args);
                push_text(out, ");");
            },
            Statement::If(c, b) => {
                push_text(out, "if (");
                c.gen_code(out);
                push_text(out, ").to_pyany(py).is_truthy(py).unwrap() {\n");
                gen_block_code(out, b);
                push_text(out, "}");
            },
            Statement::IfElse(c, a, b) => {
                push_text(out, "if (");
                c.gen_code(out);
                push_text(out, ").to_pyany(py).is_truthy(py).unwrap() {\n");
                gen_block_code(out, a);
                push_text(out, "} else {\n");
                gen_block_code(out, b);
                push_text(out, "}");
            },
            Statement::ForLoop(i, c, u, b) => {
                i.gen_code(out);
                push_text(out, "\nwhile ");
                c.gen_code(out);
                push_text(out, " {\n");
                gen_block_code(out, b);
                u.gen_code(out);
                push_text(out, "\n}");
            },
            Statement::Assignment(n, e) => {
                push_string(out, n);
                push_text(out, " = ");
                e.gen_code(out);
                push_text(out, ";");
            },
        }
        assert(out@ =~= start + gen_stmt(self@));
    }
}

/// Appends the text of a block, each statement followed by a newline.
fn gen_block_code(out: &mut String, b: &Vec<Statement>)
    requires
        arrays_empty_block(stmts_view(b@)),
    ensures
        final(out)@ == old(out)@ + gen_block(stmts_view(b@)),
    decreases b@,
{
    let ghost all = stmts_view(b@);
    let ghost start = out@;
    let mut i: usize = 0;
    assert(all.subrange(0, all.len() as int) =~= all);
    while i < b.len()
        invariant
            i <= b@.len(),
            all == stmts_view(b@),
            arrays_empty_block(all.subrange(i as int, all.len() as int)),
            out@ + gen_block(all.subrange(i as int, all.len() as int)) == start + gen_block(all),
        decreases b@.len() - i,
    {
        assert(decreases_to!(b@ => b@[i as int]));
        let ghost before = out@;
        let ghost rest = all.subrange(i as int, all.len() as int);
        assert(rest.subrange(1, rest.len() as int) =~= all.subrange(i as int + 1, all.len() as int));
        assert(rest[0] == b@[i as int]@);
        b[i].gen_code(out);
        push_text(out, "\n");
        assert(before + gen_block(rest) =~= out@ + gen_block(rest.subrange(1, rest.len() as int)));
        i = i + 1;
    }
    assert(out@ + Seq::<char>::empty() =~= out@);
}

proof fn lemma_block_forall(b: Seq<StmtV>)
    ensures
        arrays_empty_block(b) <==> forall|i: int| 0 <= i < b.len() ==> arrays_empty_stmt(#[trigger] b[i]),
    decreases b.len(),
{
    if b.len() > 0 {
        let rest = b.subrange(1, b.len() as int);
        lemma_block_forall(rest);
        if forall|i: int| 0 <= i < b.len() ==> arrays_empty_stmt(#[trigger] b[i]) {
            assert forall|i: int| 0 <= i < rest.len() implies arrays_empty_stmt(#[trigger] rest[i]) by {
                assert(rest[i] == b[i + 1]);
            }
        }
        if arrays_empty_block(b) {
            assert forall|i: int| 0 <= i < b.len() implies arrays_empty_stmt(#[trigger] b[i]) by {
                if i > 0 {
                    assert(b[i] == rest[i - 1]);
                }
            }
        }
    }
}

proof fn lemma_functions_of_ok(items: Seq<ItemV>)
    requires
        arrays_empty_items(items),
    ensures
        arrays_empty_items(functions_of(items)),
    decreases items.len(),
{
    if items.len() > 0 {
        let pre = items.drop_last();
        assert(arrays_empty_items(pre)) by {
            assert forall|i: int| 0 <= i < pre.len() implies #[trigger] pre[i] == items[i] by {}
        }
        lemma_functions_of_ok(pre);
        assert(match items[items.len() - 1] {
            ItemV::Function(f) => arrays_empty_block(f.body),
            ItemV::Statement(s) => arrays_empty_stmt(s),
        });
    }
}

proof fn lemma_statements_of_ok(items: Seq<ItemV>)
    requires
        arrays_empty_items(items),
    ensures
        forall|i: int| 0 <= i < statements_of(items).len() ==> arrays_empty_stmt(#[trigger] statements_of(items)[i]),
    decreases items.len(),
{
    if items.len() > 0 {
        let pre = items.drop_last();
        assert(arrays_empty_items(pre)) by {
            assert forall|i: int| 0 <= i < pre.len() implies #[trigger] pre[i] == items[i] by {}
        }
        lemma_statements_of_ok(pre);
        assert(match items[items.len() - 1] {
            ItemV::Function(f) => arrays_empty_block(f.body),
            ItemV::Statement(s) => arrays_empty_stmt(s),
        });
        let so = statements_of(items);
        let sp = statements_of(pre);
        assert forall|i: int| 0 <= i < so.len() implies arrays_empty_stmt(#[trigger] so[i]) by {
            if i < sp.len() {
                assert(so[i] == sp[i]);
            }
        }
    }
}

proof fn lemma_lift_ok(r: RegionV)
    requires
        arrays_empty_region(r),
    ensures
        arrays_empty_region(lift_toplevel(r)),
{
    lemma_functions_of_ok(r.body);
    lemma_statements_of_ok(r.body);
    lemma_block_forall(statements_of(r.body));
}

fn expr_arrays_empty(e: &Expr) -> (r: bool)
    ensures
        r == arrays_empty(e@),
    decreases e, 0nat,
{
    match e {
        Expr::Array(items) => {
            proof {
                lemma_exprs_view(items@);
            }
            items.len() == 0
        },
        Expr::Call(_, args) => exprs_arrays_empty(args),
        Expr::Binary(l, _, r) => expr_arrays_empty(l) && expr_arrays_empty(r),
        Expr::MethodCall(o, _, args) => expr_arrays_empty(o) && exprs_arrays_empty(args),
        _ => true,
    }
}

fn exprs_arrays_empty(v: &Vec<Expr>) -> (r: bool)
    ensures
        r == arrays_empty_all(exprs_view(v@)),
    decreases v@, 0nat,
{
    let ghost all = exprs_view(v@);
    let mut i: usize = 0;
    assert(all.subrange(0, all.len() as int) =~= all);
    while i < v.len()
        invariant
            i <= v@.len(),
            all == exprs_view(v@),
            arrays_empty_all(all) == arrays_empty_all(all.subrange(i as int, all.len() as int)),
        decreases v@.len() - i,
    {
        assert(decreases_to!(v@ => v@[i as int]));
        let ghost rest = all.subrange(i as int, all.len() as int);
        assert(rest.subrange(1, rest.len() as int) =~= all.subrange(i as int + 1, all.len() as int));
        if !expr_arrays_empty(&v[i]) {
            return false;
        }
        i = i + 1;
    }
    true
}

fn stmt_arrays_empty(s: &Statement) -> (r: bool)
    ensures
        r == arrays_empty_stmt(s@),
    decreases s,
{
    match s {
        Statement::Noop => true,
        Statement::Let(_, e) => expr_arrays_empty(e),
        Statement::Return(e) => expr_arrays_empty(e),
        Statement::Expression(e) => expr_arrays_empty(e),
        Statement::Assignment(_, e) => expr_arrays_empty(e),
        Statement::Call(_, args) => exprs_arrays_empty(args),
        Statement::If(c, b) => expr_arrays_empty(c) && block_arrays_empty(b),
        Statement::IfElse(c, a, b) => expr_arrays_empty(c) && block_arrays_empty(a) && block_arrays_empty(b),
        Statement::ForLoop(i, c, u, b) => stmt_arrays_empty(i) && expr_arrays_empty(c) && stmt_arrays_empty(u)
            && block_arrays_empty(b),
    }
}

fn block_arrays_empty(v: &Vec<Statement>) -> (r: bool)
    ensures
        r == arrays_empty_block(stmts_view(v@)),
    decreases v@,
{
    let ghost all = stmts_view(v@);
    let mut i: usize = 0;
    assert(all.subrange(0, all.len() as int) =~= all);
    while i < v.len()
        invariant
            i <= v@.len(),
            all == stmts_view(v@),
            arrays_empty_block(all) == arrays_empty_block(all.subrange(i as int, all.len() as int)),
        decreases v@.len() - i,
    {
        assert(decreases_to!(v@ => v@[i as int]));
        let ghost rest = all.subrange(i as int, all.len() as int);
        assert(rest.subrange(1, rest.len() as int) =~= all.subrange(i as int + 1, all.len() as int));
        if !stmt_arrays_empty(&v[i]) {
            return false;
        }
        i = i + 1;
    }
    true
}

/// Whether every array literal of the region is empty; code generation
/// refuses arrays with elements.
pub fn arrays_are_empty(region: &Region) -> (r: bool)
    ensures
        r == arrays_empty_region(region@),
{
    let mut i: usize = 0;
    while i < region.body.len()
        invariant
            i <= region.body@.len(),
            forall|j: int| 0 <= j < i ==> match #[trigger] items_view(region.body@)[j] {
                ItemV::Function(f) => arrays_empty_block(f.body),
                ItemV::Statement(s) => arrays_empty_stmt(s),
            },
        decreases region.body@.len() - i,
    {
        let ok = match &region.body[i] {
            RegionItem::Function(f) => block_arrays_empty(&f.body),
            RegionItem::Statement(s) => stmt_arrays_empty(s),
        };
        if !ok {
            assert(items_view(region.body@)[i as int] == region.body@[i as int]@);
            return false;
        }
        i = i + 1;
    }
    true
}

impl Function {
    /// Appends the text of the function: a host entry point taking the runtime
    /// handle and one dynamic value per parameter, ending in a `return`.
    pub fn gen_code(&self, out: &mut String)
        requires
            arrays_empty_block(stmts_view(self.body@)),
        ensures
            final(out)@ == old(out)@ + gen_function(self@),
    {
        let ghost start = out@;
        push_text(out, "#[pyfunction]\nfn ");
        push_string(out, &self.name);
        push_text(out, "(py: Python<'_>");
        let ghost mid = out@;
        let mut i: usize = 0;
        while i < self.params.len()
            invariant
                i <= self.params@.len(),
                out@ == mid + params_text(param_names(self.params@).subrange(0, i as int)),
            decreases self.params@.len() - i,
        {
            let ghost pre = param_names(self.params@).subrange(0, i as int + 1);
            assert(pre.drop_last() =~= param_names(self.params@).subrange(0, i as int));
            push_text(out, ", ");
            push_string(out, &self.params[i].name);
            push_text(out, ": Py<PyAny>");
            i = i + 1;
            assert(out@ =~= mid + params_text(pre));
        }
        assert(param_names(self.params@).subrange(0, i as int) =~= param_names(self.params@));
        push_text(out, ") -> Py<PyAny> {\n");
        let needs_return = match self.body.last() {
            Some(Statement::Return(_)) => false,
            _ => true,
        };
        proof {
            lemma_block_forall(stmts_view(self.body@));
            if self.body@.len() > 0 {
                assert(stmts_view(self.body@).last() == self.body@.last()@);
            }
        }
        if needs_return {
            let mut body = crate::ast::copy_stmts(&self.body);
            let ret = Statement::Return(Box::new(Expr::Uninitialized));
            proof {
                lemma_stmts_view_push(body@, ret);
                lemma_block_forall(stmts_view(body@).push(ret@));
                assert forall|k: int| 0 <= k < stmts_view(body@).push(ret@).len() implies
                    arrays_empty_stmt(#[trigger] stmts_view(body@).push(ret@)[k]) by {
                    if k < stmts_view(body@).len() {
                        assert(stmts_view(body@).push(ret@)[k] == stmts_view(self.body@)[k]);
                    }
                }
            }
            body.push(ret);
            gen_block_code(out, &body);
        } else {
            gen_block_code(out, &self.body);
        }
        push_text(out, "}\n");
        assert(out@ =~= start + gen_function(self@));
    }
}

impl Region {
    /// Appends the module text for a region whose bare statements are lifted.
    pub fn gen_code(&self, out: &mut String)
        requires
            arrays_empty_region(self@),
        ensures
            final(out)@ == old(out)@ + gen_module(self@) ,
    {
        let ghost start = out@;
        let ghost items = items_view(self.body@);
        push_text(out, "use pyo3::types::PyList;\nuse pyo3::prelude::*;\n\nuse crate::util::*;\n\n");
        push_text(out, "#[pymodule]\nfn ");
        push_string(out, &self.name);
        push_text(out, "(m: &Bound<'_, PyModule>) -> PyResult<()> {\nm.add_class::<Buffer>()?;\n");
        let ghost mid = out@;
        let mut i: usize = 0;
        while i < self.body.len()
            invariant
                i <= self.body@.len(),
                items == items_view(self.body@),
                out@ == mid + registrations(items.subrange(0, i as int)),
            decreases self.body@.len() - i,
        {
            let ghost pre = items.subrange(0, i as int + 1);
            assert(pre.drop_last() =~= items.subrange(0, i as int));
            assert(pre.last() == self.body@[i as int]@);
            push_text(out, "m.add_function(wrap_pyfunction!(");
            if let RegionItem::Function(f) = &self.body[i] {
                push_string(out, &f.name);
            }
            push_text(out, ", m)?)?;\n");
            i = i + 1;
            assert(out@ =~= mid + registrations(pre));
        }
        assert(items.subrange(0, i as int) =~= items);
        push_text(out, "Ok(())\n}\n\n");
        let ghost mid2 = out@;
        let mut i: usize = 0;
        assert(out@ =~= mid2 + functions_text(items.subrange(0, 0)));
        while i < self.body.len()
            invariant
                i <= self.body@.len(),
                items == items_view(self.body@),
                arrays_empty_items(items),
                out@ == mid2 + functions_text(items.subrange(0, i as int)),
            decreases self.body@.len() - i,
        {
            let ghost pre = items.subrange(0, i as int + 1);
            assert(pre.drop_last() =~= items.subrange(0, i as int));
            assert(pre.last() == self.body@[i as int]@);
            assert(match items[i as int] {
                ItemV::Function(f) => arrays_empty_block(f.body),
                ItemV::Statement(s) => arrays_empty_stmt(s),
            });
            if let RegionItem::Function(f) = &self.body[i] {
                f.gen_code(out);
            }
            i = i + 1;
            assert(out@ =~= mid2 + functions_text(pre));
        }
        assert(items.subrange(0, i as int) =~= items);
        assert(out@ =~= start + gen_module(self@));
    }
}

/// The text of the extension module for a region: the runtime support import,
/// a registration stub that registers the `Buffer` class and every function,
/// and one host entry point per function. Bare statements become `main`.
pub fn gen_code(region: &Region) -> (r: String)
    requires
        arrays_empty_region(region@),
    ensures
        r@ == gen_region(region@),
{
    let lifted = move_toplevel_statements_to_function(region);
    proof {
        lemma_lift_ok(region@);
    }
    let mut out = String::new();
    lifted.gen_code(&mut out);
    assert(out@ =~= gen_region(region@));
    out
}

} // verus!
