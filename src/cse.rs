//! Common-subexpression elimination.
use vstd::prelude::*;

use crate::analysis::{contains_name, expr_eq, names_view, variables_declared, variables_used};
use crate::licm::run_on_expr_and_nested;
use crate::ast::{
    exprs_view, lemma_exprs_view, lemma_exprs_view_push, lemma_stmts_view, lemma_stmts_view_push, stmts_view, Expr, ExprV,
    Statement, StmtV,
};
use crate::passes::{
    copy_of, cse_block, cse_expr, cse_stmt, invalidate, invalidate_all, lookup, propagate, propagate_all, record, subst, subst_all, Graph,
};

verus! {

broadcast use lemma_exprs_view, lemma_stmts_view;

/// Which variable currently holds which expression, in the order recorded.
pub struct SubexprGraph {
    pub subexprs: Vec<(String, Expr)>,
}

pub open spec fn graph_view(v: Seq<(String, Expr)>) -> Graph {
    v.map_values(|p: (String, Expr)| (p.0@, p.1@))
}

impl View for SubexprGraph {
    type V = Graph;

    open spec fn view(&self) -> Graph {
        graph_view(self.subexprs@)
    }
}

impl SubexprGraph {
    /// The empty record.
    pub fn new() -> (r: SubexprGraph)
        ensures
            r@ == Seq::<(Seq<char>, ExprV)>::empty(),
    {
        let r = SubexprGraph { subexprs: Vec::new() };
        assert(r@ =~= Seq::<(Seq<char>, ExprV)>::empty());
        r
    }

    /// A copy of the record.
    pub fn copy(&self) -> (r: SubexprGraph)
        ensures
            r@ == self@,
    {
        let mut out: Vec<(String, Expr)> = Vec::new();
        let mut i: usize = 0;
        while i < self.subexprs.len()
            invariant
                i <= self.subexprs@.len(),
                out@.len() == i,
                forall|j: int| 0 <= j < i ==> (#[trigger] out@[j]).0@ == self.subexprs@[j].0@ && out@[j].1@ == self.subexprs@[j].1@,
            decreases self.subexprs@.len() - i,
        {
            let p = (self.subexprs[i].0.clone(), self.subexprs[i].1.clone());
            out.push(p);
            i = i + 1;
        }
        let r = SubexprGraph { subexprs: out };
        assert(r@ =~= self@);
        r
    }

    /// The first variable recorded as holding `expr`, if any.
    pub fn expr_is_repeated(&self, expr: &Expr) -> (r: Option<String>)
        ensures
            r matches Some(n) ==> lookup(self@, expr@) == Some(n@),
            r is None ==> lookup(self@, expr@) is None,
    {
        if let Expr::Variable(_) = expr {
            return None;
        }
        let ghost g = self@;
        let mut i: usize = 0;
        assert(g.subrange(0, g.len() as int) =~= g);
        while i < self.subexprs.len()
            invariant
                g == self@,
                !(expr@ is Variable),
                i <= self.subexprs@.len(),
                lookup(g, expr@) == lookup(g.subrange(i as int, g.len() as int), expr@),
            decreases self.subexprs@.len() - i,
        {
            let ghost rest = g.subrange(i as int, g.len() as int);
            assert(rest.drop_first() =~= g.subrange(i as int + 1, g.len() as int));
            assert(rest[0] == (self.subexprs@[i as int].0@, self.subexprs@[i as int].1@));
            if expr_eq(&self.subexprs[i].1, expr) {
                return Some(self.subexprs[i].0.clone());
            }
            i = i + 1;
        }
        None
    }

    /// The variable that `v` is recorded as a copy of, if any.
    pub fn copy_source(&self, v: &String) -> (r: Option<String>)
        ensures
            r matches Some(n) ==> copy_of(self@, v@) == Some(n@),
            r is None ==> copy_of(self@, v@) is None,
    {
        let ghost g = self@;
        let mut i: usize = 0;
        assert(g.subrange(0, g.len() as int) =~= g);
        while i < self.subexprs.len()
            invariant
                g == self@,
                i <= self.subexprs@.len(),
                copy_of(g, v@) == copy_of(g.subrange(i as int, g.len() as int), v@),
            decreases self.subexprs@.len() - i,
        {
            let ghost rest = g.subrange(i as int, g.len() as int);
            assert(rest.drop_first() =~= g.subrange(i as int + 1, g.len() as int));
            assert(rest[0] == (self.subexprs@[i as int].0@, self.subexprs@[i as int].1@));
            if self.subexprs[i].0 == *v {
                return match &self.subexprs[i].1 {
                    Expr::Variable(c) => Some(c.clone()),
                    _ => None,
                };
            }
            i = i + 1;
        }
        None
    }

    /// Drops the entry of `var` and every entry whose expression reads `var`.
    pub fn variable_invalidated(&mut self, var: &String)
        ensures
            final(self)@ == invalidate(old(self)@, var@),
    {
        let ghost g = self@;
        let mut out: Vec<(String, Expr)> = Vec::new();
        let mut i: usize = 0;
        assert(graph_view(out@) =~= invalidate(g.subrange(0, 0), var@));
        while i < self.subexprs.len()
            invariant
                g == self@,
                i <= self.subexprs@.len(),
                graph_view(out@) == invalidate(g.subrange(0, i as int), var@),
            decreases self.subexprs@.len() - i,
        {
            let ghost pre = g.subrange(0, i as int + 1);
            assert(pre.drop_last() =~= g.subrange(0, i as int));
            assert(pre.last() == (self.subexprs@[i as int].0@, self.subexprs@[i as int].1@));
            let same = self.subexprs[i].0 == *var;
            let reads = contains_name(&variables_used(&self.subexprs[i].1), var);
            if !same && !reads {
                let p = (self.subexprs[i].0.clone(), self.subexprs[i].1.clone());
                out.push(p);
                assert(graph_view(out@) =~= invalidate(pre, var@));
            }
            i = i + 1;
        }
        assert(g.subrange(0, i as int) =~= g);
        self.subexprs = out;
    }

    /// Drops every entry that an assignment to one of `names` may falsify.
    pub fn variables_invalidated(&mut self, names: &Vec<String>)
        ensures
            final(self)@ == invalidate_all(old(self)@, names_view(names@)),
    {
        let ghost g0 = self@;
        let ghost all = names_view(names@);
        let mut i: usize = 0;
        assert(all.subrange(0, all.len() as int) =~= all);
        while i < names.len()
            invariant
                i <= names@.len(),
                all == names_view(names@),
                invalidate_all(g0, all) == invalidate_all(self@, all.subrange(i as int, all.len() as int)),
            decreases names@.len() - i,
        {
            let ghost rest = all.subrange(i as int, all.len() as int);
            assert(rest.drop_first() =~= all.subrange(i as int + 1, all.len() as int));
            assert(rest[0] == names@[i as int]@);
            self.variable_invalidated(&names[i]);
            i = i + 1;
        }
        assert(all.subrange(i as int, all.len() as int) =~= Seq::<Seq<char>>::empty());
    }

    /// Records that `var` now holds `new_expr`: the old entry of `var` and every
    /// entry whose expression reads `var` are dropped, and the new one appended
    /// unless it reads `var` itself.
    pub fn variable_modified(&mut self, var: String, new_expr: Expr)
        ensures
            final(self)@ == record(old(self)@, var@, new_expr@),
    {
        self.variable_invalidated(&var);
        if !contains_name(&variables_used(&new_expr), &var) {
            let ghost kept = self@;
            self.subexprs.push((var, new_expr));
            assert(self@ =~= kept.push((var@, new_expr@)));
        }
    }
}

fn subst_expr(g: &SubexprGraph, e: &Expr) -> (r: Expr)
    ensures
        r@ == subst(g@, e@),
{
    match g.expr_is_repeated(e) {
        Some(v) => Expr::Variable(v),
        None => e.clone(),
    }
}

fn subst_exprs(g: &SubexprGraph, v: &Vec<Expr>) -> (r: Vec<Expr>)
    ensures
        exprs_view(r@) == subst_all(g@, exprs_view(v@)),
{
    let mut out: Vec<Expr> = Vec::new();
    let mut i: usize = 0;
    while i < v.len()
        invariant
            i <= v@.len(),
            out@.len() == i,
            forall|j: int| 0 <= j < i ==> (#[trigger] out@[j])@ == subst(g@, v@[j]@),
        decreases v@.len() - i,
    {
        out.push(subst_expr(g, &v[i]));
        i = i + 1;
    }
    proof {
        lemma_exprs_view(out@);
        lemma_exprs_view(v@);
    }
    assert(exprs_view(out@) =~= subst_all(g@, exprs_view(v@)));
    out
}

/// Copy propagation through an expression.
fn propagate_expr(e: &Expr, g: &SubexprGraph) -> (r: Expr)
    ensures
        r@ == propagate(e@, g@),
    decreases e,
{
    match e {
        Expr::Variable(v) => match g.copy_source(v) {
            Some(c) => Expr::Variable(c),
            None => e.clone(),
        },
        Expr::Call(n, args) => Expr::Call(n.clone(), propagate_exprs(args, g)),
        Expr::Array(items) => Expr::Array(propagate_exprs(items, g)),
        Expr::Binary(l, op, r) => Expr::Binary(Box::new(propagate_expr(l, g)), *op, Box::new(propagate_expr(r, g))),
        Expr::MethodCall(o, m, args) => Expr::MethodCall(
            Box::new(propagate_expr(o, g)),
            m.clone(),
            propagate_exprs(args, g),
        ),
        _ => e.clone(),
    }
}

fn propagate_exprs(v: &Vec<Expr>, g: &SubexprGraph) -> (r: Vec<Expr>)
    ensures
        exprs_view(r@) == propagate_all(exprs_view(v@), g@),
    decreases v@,
{
    let ghost all = exprs_view(v@);
    let mut out: Vec<Expr> = Vec::new();
    let mut i: usize = 0;
    assert(all.subrange(0, all.len() as int) =~= all);
    assert(Seq::<ExprV>::empty() + propagate_all(all, g@) =~= propagate_all(all, g@));
    while i < v.len()
        invariant
            i <= v@.len(),
            all == exprs_view(v@),
            exprs_view(out@) + propagate_all(all.subrange(i as int, all.len() as int), g@) == propagate_all(all, g@),
        decreases v@.len() - i,
    {
        assert(decreases_to!(v@ => v@[i as int]));
        let x = propagate_expr(&v[i], g);
        proof {
            let rest = all.subrange(i as int, all.len() as int);
            assert(rest.subrange(1, rest.len() as int) =~= all.subrange(i as int + 1, all.len() as int));
            lemma_exprs_view_push(out@, x);
            assert(exprs_view(out@.push(x)) + propagate_all(rest.subrange(1, rest.len() as int), g@)
                =~= exprs_view(out@) + propagate_all(rest, g@));
        }
        out.push(x);
        i = i + 1;
    }
    assert(exprs_view(out@) + Seq::<ExprV>::empty() =~= exprs_view(out@));
    out
}

/// Copy propagation, then replacement of the whole expression.
fn cse_expression(g: &SubexprGraph, e: &Expr) -> (r: Expr)
    ensures
        r@ == cse_expr(g@, e@),
{
    subst_expr(g, &propagate_expr(e, g))
}

/// Common-subexpression elimination on one statement, updating the record.
fn cse_statement(s: &Statement, g: &mut SubexprGraph) -> (r: Statement)
    ensures
        (r@, final(g)@) == cse_stmt(s@, old(g)@),
    decreases s,
{
    match s {
        Statement::Let(n, e) => {
            let e2 = run_on_expr_and_nested(&propagate_expr(e, g), g);
            g.variable_modified(n.clone(), e2.clone());
            Statement::Let(n.clone(), Box::new(e2))
        },
        Statement::Assignment(n, e) => {
            let e2 = run_on_expr_and_nested(&propagate_expr(e, g), g);
            g.variable_modified(n.clone(), e2.clone());
            Statement::Assignment(n.clone(), Box::new(e2))
        },
        Statement::Return(e) => Statement::Return(Box::new(cse_expression(g, e))),
        Statement::Expression(e) => Statement::Expression(Box::new(cse_expression(g, e))),
        Statement::Call(n, args) => Statement::Call(n.clone(), subst_exprs(g, &propagate_exprs(args, g))),
        Statement::If(c, b) => {
            let c2 = cse_expression(g, c);
            let r = Statement::If(Box::new(c2), eliminate_common_subexpressions(b, g.copy()));
            g.variables_invalidated(&variables_declared(s));
            r
        },
        Statement::IfElse(c, a, b) => {
            let c2 = cse_expression(g, c);
            let a2 = eliminate_common_subexpressions(a, g.copy());
            let b2 = eliminate_common_subexpressions(b, g.copy());
            g.variables_invalidated(&variables_declared(s));
            Statement::IfElse(Box::new(c2), a2, b2)
        },
        Statement::ForLoop(i, c, u, b) => {
            g.variables_invalidated(&variables_declared(s));
            let c2 = cse_expression(g, c);
            let b2 = eliminate_common_subexpressions(b, g.copy());
            Statement::ForLoop(Box::new((**i).clone()), Box::new(c2), Box::new((**u).clone()), b2)
        },
        Statement::Noop => Statement::Noop,
    }
}

/// Common-subexpression elimination on a block, starting from the record `subexprs`:
/// an expression already held by a variable is replaced by that variable.
pub fn eliminate_common_subexpressions(body: &Vec<Statement>, subexprs: SubexprGraph) -> (r: Vec<Statement>)
    ensures
        stmts_view(r@) == cse_block(stmts_view(body@), subexprs@),
    decreases body@,
{
    let ghost all = stmts_view(body@);
    let ghost g0 = subexprs@;
    let mut g = subexprs;
    let mut out: Vec<Statement> = Vec::new();
    let mut i: usize = 0;
    assert(all.subrange(0, all.len() as int) =~= all);
    assert(stmts_view(out@) =~= Seq::<StmtV>::empty());
    assert(Seq::<StmtV>::empty() + cse_block(all, g0) =~= cse_block(all, g0));
    while i < body.len()
        invariant
            i <= body@.len(),
            all == stmts_view(body@),
            stmts_view(out@) + cse_block(all.subrange(i as int, all.len() as int), g@) == cse_block(all, g0),
        decreases body@.len() - i,
    {
        assert(decreases_to!(body@ => body@[i as int]));
        let ghost rest = all.subrange(i as int, all.len() as int);
        let ghost gi = g@;
        assert(rest.subrange(1, rest.len() as int) =~= all.subrange(i as int + 1, all.len() as int));
        let x = cse_statement(&body[i], &mut g);
        proof {
            lemma_stmts_view_push(out@, x);
            assert(stmts_view(out@.push(x)) + cse_block(rest.subrange(1, rest.len() as int), g@)
                =~= stmts_view(out@) + cse_block(rest, gi));
        }
        out.push(x);
        i = i + 1;
    }
    assert(stmts_view(out@) + Seq::<StmtV>::empty() =~= stmts_view(out@));
    out
}

} // verus!
