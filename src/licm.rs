//! Loop-invariant code motion.
use vstd::prelude::*;

use crate::analysis::{
    append_exprs, append_names, block_variables_declared, contains_name, expr_eq, names_view,
    variables_declared, variables_used,
};
use crate::ast::{
    exprs_view, lemma_exprs_view, lemma_exprs_view_push, lemma_stmts_view, lemma_stmts_view_push,
    stmts_view, Expr, ExprV, Statement, StmtV,
};
use crate::cse::{graph_view, SubexprGraph};
use crate::passes::{
    block_exprs, hoisted, invariants, is_invariant, licm_block, licm_stmt, lookup, replace, replace_all,
    replace_block, replace_stmt, stmt_exprs, sub_exprs, sub_exprs_all, temp_name, temps_of, vars_used,
};
use crate::text::push_usize;

verus! {

broadcast use lemma_exprs_view, lemma_stmts_view;

/// An expression followed by all of its sub-expressions, in pre-order.
pub fn expr_and_nested_exprs(e: &Expr) -> (r: Vec<Expr>)
    ensures
        exprs_view(r@) == sub_exprs(e@),
    decreases e,
{
    let mut out: Vec<Expr> = vec![e.clone()];
    proof {
        lemma_exprs_view_push(Seq::empty(), out@[0]);
        assert(out@ =~= Seq::<Expr>::empty().push(out@[0]));
    }
    let ghost head = exprs_view(out@);
    match e {
        Expr::Call(_, args) => append_exprs(&mut out, &nested_exprs_all(args)),
        Expr::Array(items) => append_exprs(&mut out, &nested_exprs_all(items)),
        Expr::Binary(l, _, r) => {
            append_exprs(&mut out, &expr_and_nested_exprs(l));
            append_exprs(&mut out, &expr_and_nested_exprs(r));
            assert(exprs_view(out@) =~= head + (sub_exprs(l@) + sub_exprs(r@)));
        },
        Expr::MethodCall(o, _, args) => {
            append_exprs(&mut out, &expr_and_nested_exprs(o));
            append_exprs(&mut out, &nested_exprs_all(args));
            assert(exprs_view(out@) =~= head + (sub_exprs(o@) + sub_exprs_all(exprs_view(args@))));
        },
        _ => {
            assert(exprs_view(out@) =~= head + Seq::<ExprV>::empty());
        },
    }
    out
}

fn nested_exprs_all(v: &Vec<Expr>) -> (r: Vec<Expr>)
    ensures
        exprs_view(r@) == sub_exprs_all(exprs_view(v@)),
    decreases v@,
{
    let ghost all = exprs_view(v@);
    let mut out: Vec<Expr> = Vec::new();
    let mut i: usize = 0;
    assert(all.subrange(0, all.len() as int) =~= all);
    assert(exprs_view(out@) =~= Seq::<ExprV>::empty());
    assert(Seq::<ExprV>::empty() + sub_exprs_all(all) =~= sub_exprs_all(all));
    while i < v.len()
        invariant
            i <= v@.len(),
            all == exprs_view(v@),
            exprs_view(out@) + sub_exprs_all(all.subrange(i as int, all.len() as int)) == sub_exprs_all(all),
        decreases v@.len() - i,
    {
        assert(decreases_to!(v@ => v@[i as int]));
        let ghost before = exprs_view(out@);
        let ghost rest = all.subrange(i as int, all.len() as int);
        assert(rest.subrange(1, rest.len() as int) =~= all.subrange(i as int + 1, all.len() as int));
        append_exprs(&mut out, &expr_and_nested_exprs(&v[i]));
        assert(before + sub_exprs_all(rest) =~= exprs_view(out@) + sub_exprs_all(rest.subrange(1, rest.len() as int)));
        i = i + 1;
    }
    assert(exprs_view(out@) + Seq::<ExprV>::empty() =~= exprs_view(out@));
    out
}

/// Every expression and sub-expression of a statement, nested blocks included.
pub fn exprs_in_statement(s: &Statement) -> (r: Vec<Expr>)
    ensures
        exprs_view(r@) == stmt_exprs(s@),
    decreases s,
{
    match s {
        Statement::Noop => {
            let r: Vec<Expr> = Vec::new();
            assert(exprs_view(r@) =~= Seq::<ExprV>::empty());
            r
        },
        Statement::Let(_, e) => expr_and_nested_exprs(e),
        Statement::Return(e) => expr_and_nested_exprs(e),
        Statement::Expression(e) => expr_and_nested_exprs(e),
        Statement::Assignment(_, e) => expr_and_nested_exprs(e),
        Statement::Call(_, args) => nested_exprs_all(args),
        Statement::If(c, b) => {
            let mut out = expr_and_nested_exprs(c);
            append_exprs(&mut out, &exprs_in_block(b));
            out
        },
        Statement::IfElse(c, a, b) => {
            let mut out = expr_and_nested_exprs(c);
            append_exprs(&mut out, &exprs_in_block(a));
            append_exprs(&mut out, &exprs_in_block(b));
            out
        },
        Statement::ForLoop(i, c, u, b) => {
            let mut out = expr_and_nested_exprs(c);
            append_exprs(&mut out, &exprs_in_statement(i));
            append_exprs(&mut out, &exprs_in_statement(u));
            append_exprs(&mut out, &exprs_in_block(b));
            out
        },
    }
}

/// Every expression and sub-expression of a block.
pub fn exprs_in_block(v: &Vec<Statement>) -> (r: Vec<Expr>)
    ensures
        exprs_view(r@) == block_exprs(stmts_view(v@)),
    decreases v@,
{
    let ghost all = stmts_view(v@);
    let mut out: Vec<Expr> = Vec::new();
    let mut i: usize = 0;
    assert(all.subrange(0, all.len() as int) =~= all);
    assert(exprs_view(out@) =~= Seq::<ExprV>::empty());
    assert(Seq::<ExprV>::empty() + block_exprs(all) =~= block_exprs(all));
    while i < v.len()
        invariant
            i <= v@.len(),
            all == stmts_view(v@),
            exprs_view(out@) + block_exprs(all.subrange(i as int, all.len() as int)) == block_exprs(all),
        decreases v@.len() - i,
    {
        assert(decreases_to!(v@ => v@[i as int]));
        let ghost before = exprs_view(out@);
        let ghost rest = all.subrange(i as int, all.len() as int);
        assert(rest.subrange(1, rest.len() as int) =~= all.subrange(i as int + 1, all.len() as int));
        append_exprs(&mut out, &exprs_in_statement(&v[i]));
        assert(before + block_exprs(rest) =~= exprs_view(out@) + block_exprs(rest.subrange(1, rest.len() as int)));
        i = i + 1;
    }
    assert(exprs_view(out@) + Seq::<ExprV>::empty() =~= exprs_view(out@));
    out
}

fn contains_expr(v: &Vec<Expr>, e: &Expr) -> (r: bool)
    ensures
        r == exprs_view(v@).contains(e@),
{
    proof {
        lemma_exprs_view(v@);
    }
    let mut i: usize = 0;
    while i < v.len()
        invariant
            i <= v@.len(),
            exprs_view(v@).len() == v@.len(),
            forall|j: int| 0 <= j < v@.len() ==> #[trigger] exprs_view(v@)[j] == v@[j]@,
            forall|j: int| 0 <= j < i ==> v@[j]@ != e@,
        decreases v@.len() - i,
    {
        if expr_eq(&v[i], e) {
            assert(exprs_view(v@)[i as int] == e@);
            return true;
        }
        i = i + 1;
    }
    false
}

fn is_loop_invariant(e: &Expr, modified: &Vec<String>) -> (r: bool)
    ensures
        r == is_invariant(e@, names_view(modified@)),
{
    match e {
        Expr::Number(_) | Expr::StringLiteral(_) | Expr::Variable(_) => return false,
        _ => {},
    }
    let used = variables_used(e);
    let mut i: usize = 0;
    while i < used.len()
        invariant
            i <= used@.len(),
            names_view(used@) == vars_used(e@),
            forall|k: int| 0 <= k < i ==> !names_view(modified@).contains(#[trigger] vars_used(e@)[k]),
        decreases used@.len() - i,
    {
        assert(names_view(used@)[i as int] == used@[i as int]@);
        if contains_name(modified, &used[i]) {
            return false;
        }
        i = i + 1;
    }
    true
}

fn invariant_exprs(cands: &Vec<Expr>, modified: &Vec<String>) -> (r: Vec<Expr>)
    ensures
        exprs_view(r@) == invariants(exprs_view(cands@), names_view(modified@)),
{
    let ghost all = exprs_view(cands@);
    let mut out: Vec<Expr> = Vec::new();
    let mut i: usize = 0;
    assert(exprs_view(out@) =~= invariants(all.subrange(0, 0), names_view(modified@)));
    while i < cands.len()
        invariant
            i <= cands@.len(),
            all == exprs_view(cands@),
            exprs_view(out@) == invariants(all.subrange(0, i as int), names_view(modified@)),
        decreases cands@.len() - i,
    {
        let ghost pre = all.subrange(0, i as int + 1);
        assert(pre.drop_last() =~= all.subrange(0, i as int));
        proof {
            lemma_exprs_view(cands@);
            assert(pre.last() == cands@[i as int]@);
        }
        if is_loop_invariant(&cands[i], modified) && !contains_expr(&out, &cands[i]) {
            let x = cands[i].clone();
            proof {
                lemma_exprs_view_push(out@, x);
            }
            out.push(x);
        }
        i = i + 1;
    }
    assert(all.subrange(0, i as int) =~= all);
    out
}

/// The temporaries for the invariant expressions: `__temp_k` holds the `k`-th.
fn make_temps(inv: &Vec<Expr>) -> (r: SubexprGraph)
    ensures
        r@ == temps_of(exprs_view(inv@)),
{
    let mut out: Vec<(String, Expr)> = Vec::new();
    let mut k: usize = 0;
    while k < inv.len()
        invariant
            k <= inv@.len(),
            out@.len() == k,
            forall|j: int| 0 <= j < k ==> (#[trigger] out@[j]).0@ == temp_name(j as nat) && out@[j].1@ == inv@[j]@,
        decreases inv@.len() - k,
    {
        let mut name = String::from_str("__temp_");
        push_usize(&mut name, k);
        out.push((name, inv[k].clone()));
        k = k + 1;
    }
    let r = SubexprGraph { subexprs: out };
    proof {
        lemma_exprs_view(inv@);
    }
    assert(r@ =~= temps_of(exprs_view(inv@)));
    r
}

/// Replaces every outermost occurrence of a recorded expression by its variable.
pub fn run_on_expr_and_nested(e: &Expr, temps: &SubexprGraph) -> (r: Expr)
    ensures
        r@ == replace(e@, temps@),
    decreases e,
{
    if let Some(v) = temps.expr_is_repeated(e) {
        return Expr::Variable(v);
    }
    match e {
        Expr::Call(n, args) => Expr::Call(n.clone(), run_on_exprs(args, temps)),
        Expr::Array(items) => Expr::Array(run_on_exprs(items, temps)),
        Expr::Binary(l, op, r) => Expr::Binary(
            Box::new(run_on_expr_and_nested(l, temps)),
            *op,
            Box::new(run_on_expr_and_nested(r, temps)),
        ),
        Expr::MethodCall(o, m, args) => Expr::MethodCall(
            Box::new(run_on_expr_and_nested(o, temps)),
            m.clone(),
            run_on_exprs(args, temps),
        ),
        _ => e.clone(),
    }
}

fn run_on_exprs(v: &Vec<Expr>, temps: &SubexprGraph) -> (r: Vec<Expr>)
    ensures
        exprs_view(r@) == replace_all(exprs_view(v@), temps@),
    decreases v@,
{
    let ghost all = exprs_view(v@);
    let mut out: Vec<Expr> = Vec::new();
    let mut i: usize = 0;
    assert(all.subrange(0, all.len() as int) =~= all);
    assert(Seq::<ExprV>::empty() + replace_all(all, temps@) =~= replace_all(all, temps@));
    while i < v.len()
        invariant
            i <= v@.len(),
            all == exprs_view(v@),
            exprs_view(out@) + replace_all(all.subrange(i as int, all.len() as int), temps@) == replace_all(all, temps@),
        decreases v@.len() - i,
    {
        assert(decreases_to!(v@ => v@[i as int]));
        let x = run_on_expr_and_nested(&v[i], temps);
        proof {
            let rest = all.subrange(i as int, all.len() as int);
            assert(rest.subrange(1, rest.len() as int) =~= all.subrange(i as int + 1, all.len() as int));
            lemma_exprs_view_push(out@, x);
            assert(exprs_view(out@.push(x)) + replace_all(rest.subrange(1, rest.len() as int), temps@)
                =~= exprs_view(out@) + replace_all(rest, temps@));
        }
        out.push(x);
        i = i + 1;
    }
    assert(exprs_view(out@) + Seq::<ExprV>::empty() =~= exprs_view(out@));
    out
}

/// Applies `run_on_expr_and_nested` to every expression of a statement.
pub fn run_on_all_exprs(s: &Statement, temps: &SubexprGraph) -> (r: Statement)
    ensures
        r@ == replace_stmt(s@, temps@),
    decreases s,
{
    match s {
        Statement::Noop => Statement::Noop,
        Statement::Let(n, e) => Statement::Let(n.clone(), Box::new(run_on_expr_and_nested(e, temps))),
        Statement::Return(e) => Statement::Return(Box::new(run_on_expr_and_nested(e, temps))),
        Statement::Expression(e) => Statement::Expression(Box::new(run_on_expr_and_nested(e, temps))),
        Statement::Assignment(n, e) => Statement::Assignment(n.clone(), Box::new(run_on_expr_and_nested(e, temps))),
        Statement::Call(n, args) => Statement::Call(n.clone(), run_on_exprs(args, temps)),
        Statement::If(c, b) => Statement::If(Box::new(run_on_expr_and_nested(c, temps)), run_on_block(b, temps)),
        Statement::IfElse(c, a, b) => Statement::IfElse(
            Box::new(run_on_expr_and_nested(c, temps)),
            run_on_block(a, temps),
            run_on_block(b, temps),
        ),
        Statement::ForLoop(i, c, u, b) => Statement::ForLoop(
            Box::new(run_on_all_exprs(i, temps)),
            Box::new(run_on_expr_and_nested(c, temps)),
            Box::new(run_on_all_exprs(u, temps)),
            run_on_block(b, temps),
        ),
    }
}

fn run_on_block(v: &Vec<Statement>, temps: &SubexprGraph) -> (r: Vec<Statement>)
    ensures
        stmts_view(r@) == replace_block(stmts_view(v@), temps@),
    decreases v@,
{
    let ghost all = stmts_view(v@);
    let mut out: Vec<Statement> = Vec::new();
    let mut i: usize = 0;
    assert(all.subrange(0, all.len() as int) =~= all);
    assert(Seq::<StmtV>::empty() + replace_block(all, temps@) =~= replace_block(all, temps@));
    while i < v.len()
        invariant
            i <= v@.len(),
            all == stmts_view(v@),
            stmts_view(out@) + replace_block(all.subrange(i as int, all.len() as int), temps@) == replace_block(all, temps@),
        decreases v@.len() - i,
    {
        assert(decreases_to!(v@ => v@[i as int]));
        let x = run_on_all_exprs(&v[i], temps);
        proof {
            let rest = all.subrange(i as int, all.len() as int);
            assert(rest.subrange(1, rest.len() as int) =~= all.subrange(i as int + 1, all.len() as int));
            lemma_stmts_view_push(out@, x);
            assert(stmts_view(out@.push(x)) + replace_block(rest.subrange(1, rest.len() as int), temps@)
                =~= stmts_view(out@) + replace_block(rest, temps@));
        }
        out.push(x);
        i = i + 1;
    }
    assert(stmts_view(out@) + Seq::<StmtV>::empty() =~= stmts_view(out@));
    out
}

/// Appends the statements of `more` to `out`.
pub(crate) fn append_stmts(out: &mut Vec<Statement>, more: Vec<Statement>)
    ensures
        stmts_view(final(out)@) == stmts_view(old(out)@) + stmts_view(more@),
{
    let ghost start = stmts_view(out@);
    let mut i: usize = 0;
    assert(stmts_view(more@.subrange(0, 0)) =~= Seq::<StmtV>::empty());
    assert(start + Seq::<StmtV>::empty() =~= start);
    while i < more.len()
        invariant
            i <= more@.len(),
            stmts_view(out@) == start + stmts_view(more@.subrange(0, i as int)),
        decreases more@.len() - i,
    {
        let x = more[i].clone();
        proof {
            lemma_stmts_view_push(out@, x);
            lemma_stmts_view_push(more@.subrange(0, i as int), more@[i as int]);
            assert(more@.subrange(0, i as int).push(more@[i as int]) =~= more@.subrange(0, i as int + 1));
        }
        out.push(x);
        i = i + 1;
        assert(stmts_view(out@) =~= start + stmts_view(more@.subrange(0, i as int)));
    }
    assert(more@.subrange(0, i as int) =~= more@);
}

fn licm_statement(s: &Statement) -> (r: Vec<Statement>)
    ensures
        stmts_view(r@) == licm_stmt(s@),
    decreases s,
{
    match s {
        Statement::ForLoop(i, c, u, b) => {
            let mut modified = variables_declared(i);
            append_names(&mut modified, &block_variables_declared(b));
            append_names(&mut modified, &variables_declared(u));
            let inv = invariant_exprs(&exprs_in_block(b), &modified);
            let temps = make_temps(&inv);
            let mut out: Vec<Statement> = Vec::new();
            let mut k: usize = 0;
            while k < temps.subexprs.len()
                invariant
                    k <= temps.subexprs@.len(),
                    stmts_view(out@) == hoisted(temps@).subrange(0, k as int),
                decreases temps.subexprs@.len() - k,
            {
                let st = Statement::Let(temps.subexprs[k].0.clone(), Box::new(temps.subexprs[k].1.clone()));
                proof {
                    lemma_stmts_view_push(out@, st);
                }
                out.push(st);
                k = k + 1;
                assert(stmts_view(out@) =~= hoisted(temps@).subrange(0, k as int));
            }
            let lp = Statement::ForLoop(
                Box::new((**i).clone()),
                Box::new((**c).clone()),
                Box::new((**u).clone()),
                run_on_block(b, &temps),
            );
            proof {
                lemma_stmts_view_push(out@, lp);
                assert(hoisted(temps@).subrange(0, k as int) =~= hoisted(temps@));
            }
            out.push(lp);
            out
        },
        Statement::If(c, b) => {
            let st = Statement::If(Box::new((**c).clone()), loop_invariant_motion(b));
            let r = vec![st];
            proof {
                lemma_stmts_view_push(Seq::empty(), st);
                assert(r@ =~= Seq::<Statement>::empty().push(st));
            }
            r
        },
        Statement::IfElse(c, a, b) => {
            let st = Statement::IfElse(Box::new((**c).clone()), loop_invariant_motion(a), loop_invariant_motion(b));
            let r = vec![st];
            proof {
                lemma_stmts_view_push(Seq::empty(), st);
                assert(r@ =~= Seq::<Statement>::empty().push(st));
            }
            r
        },
        _ => {
            let st = s.clone();
            let r = vec![st];
            proof {
                lemma_stmts_view_push(Seq::empty(), st);
                assert(r@ =~= Seq::<Statement>::empty().push(st));
            }
            r
        },
    }
}

/// Hoists, before every loop of the block, its invariant expressions into fresh
/// temporaries `__temp_k`, which replace them in the loop body.
pub fn loop_invariant_motion(body: &Vec<Statement>) -> (r: Vec<Statement>)
    ensures
        stmts_view(r@) == licm_block(stmts_view(body@)),
    decreases body@,
{
    let ghost all = stmts_view(body@);
    let mut out: Vec<Statement> = Vec::new();
    let mut i: usize = 0;
    assert(all.subrange(0, all.len() as int) =~= all);
    assert(Seq::<StmtV>::empty() + licm_block(all) =~= licm_block(all));
    while i < body.len()
        invariant
            i <= body@.len(),
            all == stmts_view(body@),
            stmts_view(out@) + licm_block(all.subrange(i as int, all.len() as int)) == licm_block(all),
        decreases body@.len() - i,
    {
        assert(decreases_to!(body@ => body@[i as int]));
        let ghost before = stmts_view(out@);
        let ghost rest = all.subrange(i as int, all.len() as int);
        assert(rest.subrange(1, rest.len() as int) =~= all.subrange(i as int + 1, all.len() as int));
        append_stmts(&mut out, licm_statement(&body[i]));
        assert(before + licm_block(rest) =~= stmts_view(out@) + licm_block(rest.subrange(1, rest.len() as int)));
        i = i + 1;
    }
    assert(stmts_view(out@) + Seq::<StmtV>::empty() =~= stmts_view(out@));
    out
}

} // verus!
