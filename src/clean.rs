//! AST cleanup and optimisation.
use vstd::prelude::*;

use crate::analysis::{append_names, contains_name, block_variables_declared, block_variables_used, names_view, undeclared_variables};
use crate::ast::{copy_params, copy_stmts, items_view, param_names, Function, FunctionV, ItemV, Region, RegionItem, RegionV, Variable, lemma_exprs_view, lemma_exprs_view_push, lemma_stmts_view, lemma_stmts_view_push, exprs_view, stmts_view, BinaryOp, Expr, ExprV, Statement, StmtV};
use crate::cse::{eliminate_common_subexpressions, SubexprGraph};
use crate::licm::loop_invariant_motion;
use crate::passes::{clean_function_spec, clean_items, clean_region, clean_round, clean_rounds, drop_unused, drop_unused_all, functions_of, lift_toplevel, return_none, statements_of, block_returns, prune_block, prune_stmt, simplify, simplify_all, simplify_binary, simplify_stmt, simplify_stmts, stmt_returns};

verus! {

broadcast use lemma_exprs_view, lemma_stmts_view;

fn simplify_binary_exec(l: Expr, op: BinaryOp, r: Expr) -> (res: Expr)
    ensures
        res@ == simplify_binary(l@, op, r@),
{
    if let (Expr::Number(a), Expr::Number(b)) = (&l, &r) {
        let a = *a;
        let b = *b;
        proof {
            let (x, y) = (a as int, b as int);
            assert(-0x4000_0000_0000_0000 <= x * y <= 0x4000_0000_0000_0000) by (nonlinear_arith)
                requires
                    -0x8000_0000 <= x <= 0x7fff_ffff,
                    -0x8000_0000 <= y <= 0x7fff_ffff,
            ;
        }
        let wide: i64 = match op {
            BinaryOp::Add => a as i64 + b as i64,
            BinaryOp::Mult => a as i64 * b as i64,
            _ => 0,
        };
        match op {
            BinaryOp::Add | BinaryOp::Mult => {
                if i32::MIN as i64 <= wide && wide <= i32::MAX as i64 {
                    return Expr::Number(wide as i32);
                }
            },
            BinaryOp::LessThan => {
                return Expr::Number(if a < b { 1 } else { 0 });
            },
            _ => {},
        }
    }
    let l_zero = matches!(l, Expr::Number(0));
    let r_zero = matches!(r, Expr::Number(0));
    let l_one = matches!(l, Expr::Number(1));
    let r_one = matches!(r, Expr::Number(1));
    if op == BinaryOp::Add && l_zero {
        r
    } else if op == BinaryOp::Add && r_zero {
        l
    } else if op == BinaryOp::Mult && (l_zero || r_zero) {
        Expr::Number(0)
    } else if op == BinaryOp::Mult && l_one {
        r
    } else if op == BinaryOp::Mult && r_one {
        l
    } else {
        Expr::Binary(Box::new(l), op, Box::new(r))
    }
}

/// Constant folding and algebraic simplification of an expression, bottom up.
pub fn simplify_expression(e: &Expr) -> (r: Expr)
    ensures
        r@ == simplify(e@),
    decreases e,
{
    match e {
        Expr::Binary(l, op, r) => {
            let l2 = simplify_expression(l);
            let r2 = simplify_expression(r);
            simplify_binary_exec(l2, *op, r2)
        },
        Expr::Call(n, args) => Expr::Call(n.clone(), simplify_exprs(args)),
        Expr::Array(items) => Expr::Array(simplify_exprs(items)),
        Expr::MethodCall(o, m, args) => {
            let o2 = simplify_expression(o);
            Expr::MethodCall(Box::new(o2), m.clone(), simplify_exprs(args))
        },
        _ => e.clone(),
    }
}

fn simplify_exprs(v: &Vec<Expr>) -> (r: Vec<Expr>)
    ensures
        exprs_view(r@) == simplify_all(exprs_view(v@)),
    decreases v@,
{
    let ghost all = exprs_view(v@);
    let mut r: Vec<Expr> = Vec::new();
    let mut i: usize = 0;
    assert(all.subrange(0, all.len() as int) =~= all);
    while i < v.len()
        invariant
            i <= v@.len(),
            all == exprs_view(v@),
            exprs_view(r@) + simplify_all(all.subrange(i as int, all.len() as int)) == simplify_all(all),
        decreases v@.len() - i,
    {
        assert(decreases_to!(v@ => v@[i as int]));
        let x = simplify_expression(&v[i]);
        proof {
            let rest = all.subrange(i as int, all.len() as int);
            assert(rest.subrange(1, rest.len() as int) =~= all.subrange(i as int + 1, all.len() as int));
            lemma_exprs_view_push(r@, x);
            assert(exprs_view(r@.push(x)) + simplify_all(rest.subrange(1, rest.len() as int))
                =~= exprs_view(r@) + simplify_all(rest));
        }
        r.push(x);
        i = i + 1;
    }
    assert(exprs_view(r@) + Seq::<ExprV>::empty() =~= exprs_view(r@));
    r
}

/// Simplifies every expression of a statement; an expression statement whose
/// simplified expression has no effect becomes `Noop`.
pub fn simplify_statement(s: &Statement) -> (r: Statement)
    ensures
        r@ == simplify_stmt(s@),
    decreases s,
{
    match s {
        Statement::Noop => Statement::Noop,
        Statement::Let(n, e) => Statement::Let(n.clone(), Box::new(simplify_expression(e))),
        Statement::Return(e) => Statement::Return(Box::new(simplify_expression(e))),
        Statement::Expression(e) => {
            let e2 = simplify_expression(e);
            match e2 {
                Expr::Number(_) | Expr::StringLiteral(_) | Expr::Variable(_) => Statement::Noop,
                _ => Statement::Expression(Box::new(e2)),
            }
        },
        Statement::Call(n, args) => Statement::Call(n.clone(), simplify_exprs(args)),
        Statement::If(c, b) => Statement::If(Box::new(simplify_expression(c)), simplify_statements(b)),
        Statement::IfElse(c, a, b) => Statement::IfElse(
            Box::new(simplify_expression(c)),
            simplify_statements(a),
            simplify_statements(b),
        ),
        Statement::ForLoop(i, c, u, b) => Statement::ForLoop(
            Box::new(simplify_statement(i)),
            Box::new(simplify_expression(c)),
            Box::new(simplify_statement(u)),
            simplify_statements(b),
        ),
        Statement::Assignment(n, e) => Statement::Assignment(n.clone(), Box::new(simplify_expression(e))),
    }
}

/// Simplifies every statement of a block.
pub fn simplify_statements(v: &Vec<Statement>) -> (r: Vec<Statement>)
    ensures
        stmts_view(r@) == simplify_stmts(stmts_view(v@)),
    decreases v@,
{
    let ghost all = stmts_view(v@);
    let mut r: Vec<Statement> = Vec::new();
    let mut i: usize = 0;
    assert(all.subrange(0, all.len() as int) =~= all);
    while i < v.len()
        invariant
            i <= v@.len(),
            all == stmts_view(v@),
            stmts_view(r@) + simplify_stmts(all.subrange(i as int, all.len() as int)) == simplify_stmts(all),
        decreases v@.len() - i,
    {
        assert(decreases_to!(v@ => v@[i as int]));
        let x = simplify_statement(&v[i]);
        proof {
            let rest = all.subrange(i as int, all.len() as int);
            assert(rest.subrange(1, rest.len() as int) =~= all.subrange(i as int + 1, all.len() as int));
            lemma_stmts_view_push(r@, x);
            assert(stmts_view(r@.push(x)) + simplify_stmts(rest.subrange(1, rest.len() as int))
                =~= stmts_view(r@) + simplify_stmts(rest));
        }
        r.push(x);
        i = i + 1;
    }
    assert(stmts_view(r@) + Seq::<StmtV>::empty() =~= stmts_view(r@));
    r
}

/// Whether a statement always returns.
pub fn statement_returns(s: &Statement) -> (r: bool)
    ensures
        r == stmt_returns(s@),
    decreases s,
{
    match s {
        Statement::Return(_) => true,
        Statement::IfElse(_, a, b) => any_returns(a) && any_returns(b),
        _ => false,
    }
}

fn any_returns(v: &Vec<Statement>) -> (r: bool)
    ensures
        r == block_returns(stmts_view(v@)),
    decreases v@,
{
    let ghost all = stmts_view(v@);
    let mut i: usize = 0;
    assert(all.subrange(0, all.len() as int) =~= all);
    while i < v.len()
        invariant
            i <= v@.len(),
            all == stmts_view(v@),
            block_returns(all) == block_returns(all.subrange(i as int, all.len() as int)),
        decreases v@.len() - i,
    {
        assert(decreases_to!(v@ => v@[i as int]));
        let ghost rest = all.subrange(i as int, all.len() as int);
        assert(rest.subrange(1, rest.len() as int) =~= all.subrange(i as int + 1, all.len() as int));
        if statement_returns(&v[i]) {
            return true;
        }
        i = i + 1;
    }
    false
}

/// Unreachable-code elimination inside a statement's nested blocks.
fn prune_statement(s: &Statement) -> (r: Statement)
    ensures
        r@ == prune_stmt(s@),
    decreases s,
{
    match s {
        Statement::If(c, b) => Statement::If(Box::new((**c).clone()), unreachable_code_elimination(b)),
        Statement::IfElse(c, a, b) => Statement::IfElse(
            Box::new((**c).clone()),
            unreachable_code_elimination(a),
            unreachable_code_elimination(b),
        ),
        Statement::ForLoop(i, c, u, b) => Statement::ForLoop(
            Box::new((**i).clone()),
            Box::new((**c).clone()),
            Box::new((**u).clone()),
            unreachable_code_elimination(b),
        ),
        _ => s.clone(),
    }
}

/// Drops every statement after the first one that returns, in the block and in
/// every block nested in it.
pub fn unreachable_code_elimination(v: &Vec<Statement>) -> (r: Vec<Statement>)
    ensures
        stmts_view(r@) == prune_block(stmts_view(v@)),
    decreases v@,
{
    let ghost all = stmts_view(v@);
    let mut r: Vec<Statement> = Vec::new();
    let mut i: usize = 0;
    assert(all.subrange(0, all.len() as int) =~= all);
    while i < v.len()
        invariant
            i <= v@.len(),
            all == stmts_view(v@),
            stmts_view(r@) + prune_block(all.subrange(i as int, all.len() as int)) == prune_block(all),
        decreases v@.len() - i,
    {
        assert(decreases_to!(v@ => v@[i as int]));
        let x = prune_statement(&v[i]);
        let ret = statement_returns(&x);
        proof {
            let rest = all.subrange(i as int, all.len() as int);
            assert(rest.subrange(1, rest.len() as int) =~= all.subrange(i as int + 1, all.len() as int));
            lemma_stmts_view_push(r@, x);
            if ret {
                assert(stmts_view(r@.push(x)) =~= stmts_view(r@) + prune_block(rest));
            } else {
                assert(stmts_view(r@.push(x)) + prune_block(rest.subrange(1, rest.len() as int))
                    =~= stmts_view(r@) + prune_block(rest));
            }
        }
        r.push(x);
        if ret {
            return r;
        }
        i = i + 1;
    }
    assert(stmts_view(r@) + Seq::<StmtV>::empty() =~= stmts_view(r@));
    r
}

fn parameter_names(v: &Vec<Variable>) -> (r: Vec<String>)
    ensures
        names_view(r@) == param_names(v@),
{
    let mut r: Vec<String> = Vec::new();
    let mut i: usize = 0;
    while i < v.len()
        invariant
            i <= v@.len(),
            r@.len() == i,
            forall|j: int| 0 <= j < i ==> (#[trigger] r@[j])@ == v@[j].name@,
        decreases v@.len() - i,
    {
        r.push(v[i].name.clone());
        i = i + 1;
    }
    assert(names_view(r@) =~= param_names(v@));
    r
}

fn drop_unused_statements(v: &Vec<Statement>, used: &Vec<String>) -> (r: Vec<Statement>)
    ensures
        stmts_view(r@) == drop_unused_all(stmts_view(v@), names_view(used@)),
{
    let mut r: Vec<Statement> = Vec::new();
    let mut i: usize = 0;
    while i < v.len()
        invariant
            i <= v@.len(),
            r@.len() == i,
            forall|j: int| 0 <= j < i ==> (#[trigger] r@[j])@ == drop_unused(v@[j]@, names_view(used@)),
        decreases v@.len() - i,
    {
        let x = match &v[i] {
            Statement::Let(n, e) | Statement::Assignment(n, e) => {
                if contains_name(used, n) {
                    v[i].clone()
                } else {
                    Statement::Expression(Box::new((**e).clone()))
                }
            },
            _ => v[i].clone(),
        };
        r.push(x);
        i = i + 1;
    }
    assert(stmts_view(r@) =~= drop_unused_all(stmts_view(v@), names_view(used@)));
    r
}

/// One optimisation round on a function body: return normalisation, unreachable-code
/// elimination, simplification, use/def analysis, unused-variable rewriting, CSE and LICM.
/// Fails with the undeclared variables that the body reads.
fn clean_round_exec(params: &Vec<String>, body: &Vec<Statement>) -> (r: Result<Vec<Statement>, Vec<String>>)
    ensures
        match clean_round(names_view(params@), stmts_view(body@)) {
            Ok(b) => r matches Ok(v) && stmts_view(v@) == b,
            Err(u) => r matches Err(e) && names_view(e@) == u,
        },
{
    let mut b0 = copy_stmts(body);
    let ret = Statement::Return(Box::new(Expr::Uninitialized));
    proof {
        lemma_stmts_view_push(b0@, ret);
    }
    b0.push(ret);
    let b1 = simplify_statements(&unreachable_code_elimination(&b0));
    let used = block_variables_used(&b1);
    let mut declared = parameter_names_of(params);
    append_names(&mut declared, &block_variables_declared(&b1));
    let und = undeclared_variables(&used, &declared);
    if und.len() > 0 {
        return Err(und);
    }
    let b2 = drop_unused_statements(&b1, &used);
    let b3 = eliminate_common_subexpressions(&b2, SubexprGraph::new());
    Ok(loop_invariant_motion(&b3))
}

fn parameter_names_of(v: &Vec<String>) -> (r: Vec<String>)
    ensures
        names_view(r@) == names_view(v@),
{
    let mut r: Vec<String> = Vec::new();
    append_names(&mut r, v);
    assert(names_view(r@) =~= Seq::<Seq<char>>::empty() + names_view(v@));
    r
}

/// A function after `rounds` optimisation rounds, or the undeclared variables
/// that its body reads.
pub fn clean_function_rounds(function: &Function, rounds: usize) -> (r: Result<Function, Vec<String>>)
    ensures
        match clean_rounds(function@.params, function@.body, rounds as nat) {
            Ok(b) => r matches Ok(f) && f@ == (FunctionV { name: function@.name, params: function@.params, body: b }),
            Err(u) => r matches Err(e) && names_view(e@) == u,
        },
{
    let params = parameter_names(&function.params);
    let mut body = copy_stmts(&function.body);
    let mut k: usize = 0;
    while k < rounds
        invariant
            k <= rounds,
            names_view(params@) == function@.params,
            clean_rounds(function@.params, function@.body, rounds as nat)
                == clean_rounds(function@.params, stmts_view(body@), (rounds - k) as nat),
        decreases rounds - k,
    {
        match clean_round_exec(&params, &body) {
            Err(e) => return Err(e),
            Ok(b) => body = b,
        }
        k = k + 1;
    }
    Ok(Function { name: function.name.clone(), params: copy_params(&function.params), body })
}

/// A function after the three optimisation rounds, or the undeclared variables
/// that its body reads.
pub fn clean_function(function: &Function) -> (r: Result<Function, Vec<String>>)
    ensures
        match clean_function_spec(function@) {
            Ok(f) => r matches Ok(g) && g@ == f,
            Err(u) => r matches Err(e) && names_view(e@) == u,
        },
{
    clean_function_rounds(function, 3)
}

/// Lifts the bare statements of a region into a function `main` without
/// parameters, placed after all other functions.
pub fn move_toplevel_statements_to_function(region: &Region) -> (r: Region)
    ensures
        r@ == lift_toplevel(region@),
{
    let mut fns: Vec<RegionItem> = Vec::new();
    let mut stmts: Vec<Statement> = Vec::new();
    let ghost items = items_view(region.body@);
    let mut i: usize = 0;
    assert(items_view(fns@) =~= functions_of(items.subrange(0, 0)));
    assert(stmts_view(stmts@) =~= statements_of(items.subrange(0, 0)));
    while i < region.body.len()
        invariant
            i <= region.body@.len(),
            items == items_view(region.body@),
            items_view(fns@) == functions_of(items.subrange(0, i as int)),
            stmts_view(stmts@) == statements_of(items.subrange(0, i as int)),
        decreases region.body@.len() - i,
    {
        let ghost pre = items.subrange(0, i as int + 1);
        assert(pre.drop_last() =~= items.subrange(0, i as int));
        assert(pre.last() == region.body@[i as int]@);
        match &region.body[i] {
            RegionItem::Function(f) => {
                fns.push(RegionItem::Function(f.copy()));
                assert(items_view(fns@) =~= functions_of(pre));
            },
            RegionItem::Statement(s) => {
                let x = s.clone();
                proof {
                    lemma_stmts_view_push(stmts@, x);
                }
                stmts.push(x);
            },
        }
        i = i + 1;
    }
    assert(items.subrange(0, i as int) =~= items);
    if stmts.len() > 0 {
        let main = Function { name: String::from_str("main"), params: Vec::new(), body: stmts };
        assert(param_names(main.params@) =~= Seq::<Seq<char>>::empty());
        let ghost before = items_view(fns@);
        fns.push(RegionItem::Function(main));
        assert(items_view(fns@) =~= before.push(RegionItem::Function(main)@));
    }
    Region { name: region.name.clone(), body: fns }
}

/// Cleans a region: its bare statements are lifted into `main`, then every
/// function gets three optimisation rounds. On the first function that reads an
/// undeclared variable the region is left as it was and those variables are returned.
#[verifier::rlimit(40)]
pub fn clean_ast(region: &mut Region) -> (r: Result<(), Vec<String>>)
    ensures
        match clean_region(old(region)@) {
            Ok(c) => r is Ok && final(region)@ == c,
            Err(u) => r matches Err(e) && names_view(e@) == u && final(region)@ == old(region)@,
        },
{
    let lifted = move_toplevel_statements_to_function(region);
    let ghost items = items_view(lifted.body@);
    let mut out: Vec<RegionItem> = Vec::new();
    let mut i: usize = 0;
    assert(items.subrange(0, items.len() as int) =~= items);
    while i < lifted.body.len()
        invariant
            i <= lifted.body@.len(),
            items == items_view(lifted.body@),
            *region == *old(region),
            lifted@ == lift_toplevel(old(region)@),
            clean_items(items) == match clean_items(items.subrange(i as int, items.len() as int)) {
                Err(u) => Err(u),
                Ok(t) => Ok::<Seq<ItemV>, Seq<Seq<char>>>(items_view(out@) + t),
            },
        decreases lifted.body@.len() - i,
    {
        let ghost rest = items.subrange(i as int, items.len() as int);
        assert(rest.drop_first() =~= items.subrange(i as int + 1, items.len() as int));
        assert(rest[0] == lifted.body@[i as int]@);
        let ghost before = items_view(out@);
        match &lifted.body[i] {
            RegionItem::Function(f) => match clean_function(f) {
                Err(e) => {
                    proof {
                        assert(rest[0] == ItemV::Function(f@));
                        assert(clean_function_spec(f@) is Err);
                        assert(clean_items(rest) == Err::<Seq<ItemV>, Seq<Seq<char>>>(names_view(e@)));
                    }
                    return Err(e);
                },
                Ok(g) => {
                    out.push(RegionItem::Function(g));
                },
            },
            RegionItem::Statement(s) => {
                out.push(RegionItem::Statement(s.clone()));
            },
        }
        proof {
            assert(items_view(out@) =~= before.push(out@.last()@));
            assert forall|t: Seq<ItemV>| #![auto] before + (seq![out@.last()@] + t) == items_view(out@) + t by {
                assert(before + (seq![out@.last()@] + t) =~= items_view(out@) + t);
            }
        }
        i = i + 1;
    }
    proof {
        assert(items.subrange(i as int, items.len() as int) =~= Seq::<ItemV>::empty());
        assert(items_view(out@) + Seq::<ItemV>::empty() =~= items_view(out@));
    }
    region.name = lifted.name;
    region.body = out;
    Ok(())
}

} // verus!
