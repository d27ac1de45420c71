//! Use/def analysis over the AST.
use vstd::prelude::*;

use crate::ast::{
    expr_view, exprs_view, lemma_exprs_view, lemma_exprs_view_push, lemma_stmts_view, stmts_view, Expr, ExprV,
    Statement, StmtV,
};
use crate::passes::{block_declares, block_uses, stmt_declares, stmt_uses, undeclared, vars_used, vars_used_all};

verus! {

broadcast use lemma_exprs_view, lemma_stmts_view;

/// The models of a list of names.
pub open spec fn names_view(v: Seq<String>) -> Seq<Seq<char>> {
    v.map_values(|s: String| s@)
}

/// Appends the names of `more` to `out`.
pub(crate) fn append_names(out: &mut Vec<String>, more: &Vec<String>)
    ensures
        names_view(final(out)@) == names_view(old(out)@) + names_view(more@),
{
    let ghost start = out@;
    let mut i: usize = 0;
    while i < more.len()
        invariant
            i <= more@.len(),
            out@.len() == start.len() + i,
            forall|j: int| 0 <= j < start.len() ==> #[trigger] out@[j] == start[j],
            forall|j: int| 0 <= j < i ==> #[trigger] out@[start.len() + j] == more@[j],
        decreases more@.len() - i,
    {
        out.push(more[i].clone());
        i = i + 1;
    }
    assert(names_view(out@) =~= names_view(start) + names_view(more@)) by {
        assert forall|j: int| 0 <= j < out@.len() implies names_view(out@)[j] == (names_view(start) + names_view(more@))[j] by {
            if j >= start.len() {
                assert(out@[start.len() + (j - start.len())] == more@[j - start.len()]);
            }
        }
    }
}

/// Appends the expressions of `more` to `out`.
pub(crate) fn append_exprs(out: &mut Vec<Expr>, more: &Vec<Expr>)
    ensures
        exprs_view(final(out)@) == exprs_view(old(out)@) + exprs_view(more@),
{
    let ghost start = exprs_view(out@);
    let mut i: usize = 0;
    assert(exprs_view(more@.subrange(0, 0)) =~= Seq::<ExprV>::empty());
    assert(start + Seq::<ExprV>::empty() =~= start);
    while i < more.len()
        invariant
            i <= more@.len(),
            exprs_view(out@) == start + exprs_view(more@.subrange(0, i as int)),
        decreases more@.len() - i,
    {
        let x = more[i].clone();
        proof {
            lemma_exprs_view_push(out@, x);
            lemma_exprs_view_push(more@.subrange(0, i as int), more@[i as int]);
            assert(more@.subrange(0, i as int).push(more@[i as int]) =~= more@.subrange(0, i as int + 1));
        }
        out.push(x);
        i = i + 1;
        assert(exprs_view(out@) =~= start + exprs_view(more@.subrange(0, i as int)));
    }
    assert(more@.subrange(0, i as int) =~= more@);
}

/// Whether `n` is among `v`.
pub(crate) fn contains_name(v: &Vec<String>, n: &String) -> (r: bool)
    ensures
        r == names_view(v@).contains(n@),
{
    let mut i: usize = 0;
    while i < v.len()
        invariant
            i <= v@.len(),
            forall|j: int| 0 <= j < i ==> v@[j]@ != n@,
        decreases v@.len() - i,
    {
        if v[i] == *n {
            assert(names_view(v@)[i as int] == n@);
            return true;
        }
        i = i + 1;
    }
    assert(!names_view(v@).contains(n@)) by {
        if names_view(v@).contains(n@) {
            let j = choose|j: int| 0 <= j < names_view(v@).len() && names_view(v@)[j] == n@;
            assert(v@[j]@ == n@);
        }
    }
    false
}

/// Structural equality of expressions.
pub fn expr_eq(a: &Expr, b: &Expr) -> (r: bool)
    ensures
        r == (a@ == b@),
    decreases a,
{
    match (a, b) {
        (Expr::Uninitialized, Expr::Uninitialized) => true,
        (Expr::Number(x), Expr::Number(y)) => *x == *y,
        (Expr::StringLiteral(x), Expr::StringLiteral(y)) => *x == *y,
        (Expr::Variable(x), Expr::Variable(y)) => *x == *y,
        (Expr::Call(n, x), Expr::Call(m, y)) => *n == *m && exprs_eq(x, y),
        (Expr::Array(x), Expr::Array(y)) => exprs_eq(x, y),
        (Expr::Binary(l1, o1, r1), Expr::Binary(l2, o2, r2)) => *o1 == *o2 && expr_eq(l1, l2) && expr_eq(r1, r2),
        (Expr::MethodCall(o1, m1, x), Expr::MethodCall(o2, m2, y)) => *m1 == *m2 && expr_eq(o1, o2) && exprs_eq(x, y),
        _ => false,
    }
}

fn exprs_eq(a: &Vec<Expr>, b: &Vec<Expr>) -> (r: bool)
    ensures
        r == (exprs_view(a@) == exprs_view(b@)),
    decreases a@,
{
    proof {
        lemma_exprs_view(a@);
        lemma_exprs_view(b@);
    }
    if a.len() != b.len() {
        return false;
    }
    let mut i: usize = 0;
    while i < a.len()
        invariant
            a@.len() == b@.len(),
            i <= a@.len(),
            forall|j: int| 0 <= j < i ==> expr_view(#[trigger] a@[j]) == expr_view(b@[j]),
        decreases a@.len() - i,
    {
        assert(decreases_to!(a@ => a@[i as int]));
        proof {
            lemma_exprs_view(a@);
            lemma_exprs_view(b@);
        }
        if !expr_eq(&a[i], &b[i]) {
            assert(exprs_view(a@)[i as int] != exprs_view(b@)[i as int]);
            return false;
        }
        i = i + 1;
    }
    proof {
        crate::ast::lemma_exprs_view_ext(a@, b@);
    }
    true
}

/// The variables an expression reads, in order of appearance.
pub fn variables_used(e: &Expr) -> (r: Vec<String>)
    ensures
        names_view(r@) == vars_used(e@),
    decreases e,
{
    match e {
        Expr::Variable(n) => {
            let r = vec![n.clone()];
            assert(names_view(r@) =~= seq![n@]);
            r
        },
        Expr::Call(_, args) => variables_used_all(args),
        Expr::Array(items) => variables_used_all(items),
        Expr::Binary(l, _, r) => {
            let mut out = variables_used(l);
            append_names(&mut out, &variables_used(r));
            out
        },
        Expr::MethodCall(o, _, args) => {
            let mut out = variables_used(o);
            append_names(&mut out, &variables_used_all(args));
            out
        },
        _ => {
            let r: Vec<String> = Vec::new();
            assert(names_view(r@) =~= Seq::<Seq<char>>::empty());
            r
        },
    }
}

fn variables_used_all(v: &Vec<Expr>) -> (r: Vec<String>)
    ensures
        names_view(r@) == vars_used_all(exprs_view(v@)),
    decreases v@,
{
    let ghost all = exprs_view(v@);
    let mut out: Vec<String> = Vec::new();
    let mut i: usize = 0;
    assert(all.subrange(0, all.len() as int) =~= all);
    assert(names_view(out@) =~= Seq::<Seq<char>>::empty());
    while i < v.len()
        invariant
            i <= v@.len(),
            all == exprs_view(v@),
            names_view(out@) + vars_used_all(all.subrange(i as int, all.len() as int)) == vars_used_all(all),
        decreases v@.len() - i,
    {
        assert(decreases_to!(v@ => v@[i as int]));
        let ghost before = names_view(out@);
        let ghost rest = all.subrange(i as int, all.len() as int);
        assert(rest.subrange(1, rest.len() as int) =~= all.subrange(i as int + 1, all.len() as int));
        append_names(&mut out, &variables_used(&v[i]));
        assert(before + vars_used_all(rest) =~= names_view(out@) + vars_used_all(rest.subrange(1, rest.len() as int)));
        i = i + 1;
    }
    assert(names_view(out@) + Seq::<Seq<char>>::empty() =~= names_view(out@));
    out
}

/// The variables a statement reads, nested blocks included.
pub fn statement_uses(s: &Statement) -> (r: Vec<String>)
    ensures
        names_view(r@) == stmt_uses(s@),
    decreases s,
{
    match s {
        Statement::Noop => {
            let r: Vec<String> = Vec::new();
            assert(names_view(r@) =~= Seq::<Seq<char>>::empty());
            r
        },
        Statement::Let(_, e) => variables_used(e),
        Statement::Return(e) => variables_used(e),
        Statement::Expression(e) => variables_used(e),
        Statement::Assignment(_, e) => variables_used(e),
        Statement::Call(_, args) => variables_used_all(args),
        Statement::If(c, b) => {
            let mut out = variables_used(c);
            append_names(&mut out, &block_variables_used(b));
            out
        },
        Statement::IfElse(c, a, b) => {
            let mut out = variables_used(c);
            append_names(&mut out, &block_variables_used(a));
            append_names(&mut out, &block_variables_used(b));
            out
        },
        Statement::ForLoop(i, c, u, b) => {
            let mut out = variables_used(c);
            append_names(&mut out, &statement_uses(i));
            append_names(&mut out, &statement_uses(u));
            append_names(&mut out, &block_variables_used(b));
            out
        },
    }
}

/// The variables a block reads, nested blocks included.
pub fn block_variables_used(v: &Vec<Statement>) -> (r: Vec<String>)
    ensures
        names_view(r@) == block_uses(stmts_view(v@)),
    decreases v@,
{
    let ghost all = stmts_view(v@);
    let mut out: Vec<String> = Vec::new();
    let mut i: usize = 0;
    assert(all.subrange(0, all.len() as int) =~= all);
    assert(names_view(out@) =~= Seq::<Seq<char>>::empty());
    while i < v.len()
        invariant
            i <= v@.len(),
            all == stmts_view(v@),
            names_view(out@) + block_uses(all.subrange(i as int, all.len() as int)) == block_uses(all),
        decreases v@.len() - i,
    {
        assert(decreases_to!(v@ => v@[i as int]));
        let ghost before = names_view(out@);
        let ghost rest = all.subrange(i as int, all.len() as int);
        assert(rest.subrange(1, rest.len() as int) =~= all.subrange(i as int + 1, all.len() as int));
        append_names(&mut out, &statement_uses(&v[i]));
        assert(before + block_uses(rest) =~= names_view(out@) + block_uses(rest.subrange(1, rest.len() as int)));
        i = i + 1;
    }
    assert(names_view(out@) + Seq::<Seq<char>>::empty() =~= names_view(out@));
    out
}

/// The variables a statement declares or assigns, nested blocks included.
pub fn variables_declared(s: &Statement) -> (r: Vec<String>)
    ensures
        names_view(r@) == stmt_declares(s@),
    decreases s,
{
    match s {
        Statement::Let(n, _) | Statement::Assignment(n, _) => {
            let r = vec![n.clone()];
            assert(names_view(r@) =~= seq![n@]);
            r
        },
        Statement::If(_, b) => block_variables_declared(b),
        Statement::IfElse(_, a, b) => {
            let mut out = block_variables_declared(a);
            append_names(&mut out, &block_variables_declared(b));
            out
        },
        Statement::ForLoop(i, _, u, b) => {
            let mut out = variables_declared(i);
            append_names(&mut out, &block_variables_declared(b));
            append_names(&mut out, &variables_declared(u));
            out
        },
        _ => {
            let r: Vec<String> = Vec::new();
            assert(names_view(r@) =~= Seq::<Seq<char>>::empty());
            r
        },
    }
}

/// The variables a block declares or assigns, nested blocks included.
pub fn block_variables_declared(v: &Vec<Statement>) -> (r: Vec<String>)
    ensures
        names_view(r@) == block_declares(stmts_view(v@)),
    decreases v@,
{
    let ghost all = stmts_view(v@);
    let mut out: Vec<String> = Vec::new();
    let mut i: usize = 0;
    assert(all.subrange(0, all.len() as int) =~= all);
    assert(names_view(out@) =~= Seq::<Seq<char>>::empty());
    while i < v.len()
        invariant
            i <= v@.len(),
            all == stmts_view(v@),
            names_view(out@) + block_declares(all.subrange(i as int, all.len() as int)) == block_declares(all),
        decreases v@.len() - i,
    {
        assert(decreases_to!(v@ => v@[i as int]));
        let ghost before = names_view(out@);
        let ghost rest = all.subrange(i as int, all.len() as int);
        assert(rest.subrange(1, rest.len() as int) =~= all.subrange(i as int + 1, all.len() as int));
        append_names(&mut out, &variables_declared(&v[i]));
        assert(before + block_declares(rest) =~= names_view(out@) + block_declares(rest.subrange(1, rest.len() as int)));
        i = i + 1;
    }
    assert(names_view(out@) + Seq::<Seq<char>>::empty() =~= names_view(out@));
    out
}

/// The names of `used` missing from `declared`, each once, in order of first use.
pub fn undeclared_variables(used: &Vec<String>, declared: &Vec<String>) -> (r: Vec<String>)
    ensures
        names_view(r@) == undeclared(names_view(used@), names_view(declared@)),
{
    let mut out: Vec<String> = Vec::new();
    let mut i: usize = 0;
    assert(names_view(out@) =~= Seq::<Seq<char>>::empty());
    assert(names_view(used@).subrange(0, 0) =~= Seq::<Seq<char>>::empty());
    while i < used.len()
        invariant
            i <= used@.len(),
            names_view(out@) == undeclared(names_view(used@).subrange(0, i as int), names_view(declared@)),
        decreases used@.len() - i,
    {
        let ghost pre = names_view(used@).subrange(0, i as int + 1);
        assert(pre.drop_last() =~= names_view(used@).subrange(0, i as int));
        assert(pre.last() == used@[i as int]@);
        if !contains_name(declared, &used[i]) && !contains_name(&out, &used[i]) {
            out.push(used[i].clone());
            assert(names_view(out@) =~= undeclared(pre, names_view(declared@)));
        }
        i = i + 1;
    }
    assert(names_view(used@).subrange(0, i as int) =~= names_view(used@));
    out
}

} // verus!
