//! The optimiser's passes stated over the models of the AST.
use vstd::prelude::*;

use crate::ast::{BinaryOp, ExprV, FunctionV, ItemV, RegionV, StmtV};
use crate::text::nat_digits;

verus! {

pub open spec fn fits_i32(n: int) -> bool {
    i32::MIN <= n && n <= i32::MAX
}

/// Constant folding of two numbers, where the operator folds and the result fits.
pub open spec fn folded(a: i32, op: BinaryOp, b: i32) -> Option<i32> {
    match op {
        BinaryOp::Add => if fits_i32(a + b) { Some((a + b) as i32) } else { None },
        BinaryOp::Mult => if fits_i32(a * b) { Some((a * b) as i32) } else { None },
        BinaryOp::LessThan => Some(if a < b { 1i32 } else { 0i32 }),
        _ => None,
    }
}

/// One binary node with simplified operands: constant folding, then the
/// identities `x + 0`, `0 + x`, `x * 0`, `0 * x`, `x * 1`, `1 * x`.
pub open spec fn simplify_binary(l: ExprV, op: BinaryOp, r: ExprV) -> ExprV {
    if l is Number && r is Number && folded(l->Number_0, op, r->Number_0) is Some {
        ExprV::Number(folded(l->Number_0, op, r->Number_0)->0)
    } else if op == BinaryOp::Add && l == ExprV::Number(0) {
        r
    } else if op == BinaryOp::Add && r == ExprV::Number(0) {
        l
    } else if op == BinaryOp::Mult && (l == ExprV::Number(0) || r == ExprV::Number(0)) {
        ExprV::Number(0)
    } else if op == BinaryOp::Mult && l == ExprV::Number(1) {
        r
    } else if op == BinaryOp::Mult && r == ExprV::Number(1) {
        l
    } else {
        ExprV::Binary(Box::new(l), op, Box::new(r))
    }
}

/// Expression simplification, bottom up.
pub open spec fn simplify(e: ExprV) -> ExprV
    decreases e,
{
    match e {
        ExprV::Binary(l, op, r) => simplify_binary(simplify(*l), op, simplify(*r)),
        ExprV::Call(n, args) => ExprV::Call(n, simplify_all(args)),
        ExprV::Array(items) => ExprV::Array(simplify_all(items)),
        ExprV::MethodCall(o, m, args) => ExprV::MethodCall(Box::new(simplify(*o)), m, simplify_all(args)),
        _ => e,
    }
}

pub open spec fn simplify_all(s: Seq<ExprV>) -> Seq<ExprV>
    decreases s,
{
    if s.len() == 0 {
        s
    } else {
        seq![simplify(s[0])] + simplify_all(s.subrange(1, s.len() as int))
    }
}

/// Expressions with no effect when evaluated alone.
pub open spec fn is_inert(e: ExprV) -> bool {
    e is Number || e is StringLiteral || e is Variable
}

/// Statement simplification: every expression simplified, and an expression
/// statement left inert becomes `Noop`.
pub open spec fn simplify_stmt(s: StmtV) -> StmtV
    decreases s,
{
    match s {
        StmtV::Let(n, e) => StmtV::Let(n, simplify(e)),
        StmtV::Return(e) => StmtV::Return(simplify(e)),
        StmtV::Expression(e) => if is_inert(simplify(e)) { StmtV::Noop } else { StmtV::Expression(simplify(e)) },
        StmtV::Call(n, args) => StmtV::Call(n, simplify_all(args)),
        StmtV::If(c, b) => StmtV::If(simplify(c), simplify_stmts(b)),
        StmtV::IfElse(c, a, b) => StmtV::IfElse(simplify(c), simplify_stmts(a), simplify_stmts(b)),
        StmtV::ForLoop(i, c, u, b) => StmtV::ForLoop(
            Box::new(simplify_stmt(*i)),
            simplify(c),
            Box::new(simplify_stmt(*u)),
            simplify_stmts(b),
        ),
        StmtV::Assignment(n, e) => StmtV::Assignment(n, simplify(e)),
        StmtV::Noop => StmtV::Noop,
    }
}

pub open spec fn simplify_stmts(s: Seq<StmtV>) -> Seq<StmtV>
    decreases s,
{
    if s.len() == 0 {
        s
    } else {
        seq![simplify_stmt(s[0])] + simplify_stmts(s.subrange(1, s.len() as int))
    }
}

/// Whether a statement always returns: a `Return`, or an `IfElse` whose two
/// arms both return.
pub open spec fn stmt_returns(s: StmtV) -> bool
    decreases s,
{
    match s {
        StmtV::Return(_) => true,
        StmtV::IfElse(_, a, b) => block_returns(a) && block_returns(b),
        _ => false,
    }
}

/// Whether some statement of a block returns.
pub open spec fn block_returns(b: Seq<StmtV>) -> bool
    decreases b,
{
    if b.len() == 0 {
        false
    } else {
        stmt_returns(b[0]) || block_returns(b.subrange(1, b.len() as int))
    }
}

/// Unreachable-code elimination in one statement's nested blocks.
pub open spec fn prune_stmt(s: StmtV) -> StmtV
    decreases s,
{
    match s {
        StmtV::If(c, b) => StmtV::If(c, prune_block(b)),
        StmtV::IfElse(c, a, b) => StmtV::IfElse(c, prune_block(a), prune_block(b)),
        StmtV::ForLoop(i, c, u, b) => StmtV::ForLoop(i, c, u, prune_block(b)),
        _ => s,
    }
}

/// Unreachable-code elimination in a block: every statement after the first
/// one that returns is dropped, in this block and in every nested one.
pub open spec fn prune_block(b: Seq<StmtV>) -> Seq<StmtV>
    decreases b,
{
    if b.len() == 0 {
        b
    } else if stmt_returns(prune_stmt(b[0])) {
        seq![prune_stmt(b[0])]
    } else {
        seq![prune_stmt(b[0])] + prune_block(b.subrange(1, b.len() as int))
    }
}

/// After unreachable-code elimination no statement of a block follows one
/// that returns.
pub proof fn lemma_nothing_after_return(b: Seq<StmtV>)
    ensures
        forall|i: int| 0 <= i < prune_block(b).len() - 1 ==> !stmt_returns(#[trigger] prune_block(b)[i]),
    decreases b.len(),
{
    if b.len() > 0 && !stmt_returns(prune_stmt(b[0])) {
        let rest = b.subrange(1, b.len() as int);
        lemma_nothing_after_return(rest);
        let out = prune_block(b);
        assert forall|i: int| 0 <= i < out.len() - 1 implies !stmt_returns(#[trigger] out[i]) by {
            if i > 0 {
                assert(out[i] == prune_block(rest)[i - 1]);
            }
        }
    }
}

/// The variables an expression reads, in order of appearance.
pub open spec fn vars_used(e: ExprV) -> Seq<Seq<char>>
    decreases e,
{
    match e {
        ExprV::Variable(n) => seq![n],
        ExprV::Call(_, args) => vars_used_all(args),
        ExprV::Array(items) => vars_used_all(items),
        ExprV::Binary(l, _, r) => vars_used(*l) + vars_used(*r),
        ExprV::MethodCall(o, _, args) => vars_used(*o) + vars_used_all(args),
        _ => Seq::empty(),
    }
}

pub open spec fn vars_used_all(s: Seq<ExprV>) -> Seq<Seq<char>>
    decreases s,
{
    if s.len() == 0 {
        Seq::empty()
    } else {
        vars_used(s[0]) + vars_used_all(s.subrange(1, s.len() as int))
    }
}

/// The variables a statement reads, nested blocks included.
pub open spec fn stmt_uses(s: StmtV) -> Seq<Seq<char>>
    decreases s,
{
    match s {
        StmtV::Noop => Seq::empty(),
        StmtV::Let(_, e) => vars_used(e),
        StmtV::Return(e) => vars_used(e),
        StmtV::Expression(e) => vars_used(e),
        StmtV::Assignment(_, e) => vars_used(e),
        StmtV::Call(_, args) => vars_used_all(args),
        StmtV::If(c, b) => vars_used(c) + block_uses(b),
        StmtV::IfElse(c, a, b) => vars_used(c) + block_uses(a) + block_uses(b),
        StmtV::ForLoop(i, c, u, b) => vars_used(c) + stmt_uses(*i) + stmt_uses(*u) + block_uses(b),
    }
}

pub open spec fn block_uses(b: Seq<StmtV>) -> Seq<Seq<char>>
    decreases b,
{
    if b.len() == 0 {
        Seq::empty()
    } else {
        stmt_uses(b[0]) + block_uses(b.subrange(1, b.len() as int))
    }
}

/// The variables a statement declares or assigns, nested blocks included.
pub open spec fn stmt_declares(s: StmtV) -> Seq<Seq<char>>
    decreases s,
{
    match s {
        StmtV::Let(n, _) => seq![n],
        StmtV::Assignment(n, _) => seq![n],
        StmtV::If(_, b) => block_declares(b),
        StmtV::IfElse(_, a, b) => block_declares(a) + block_declares(b),
        StmtV::ForLoop(i, _, u, b) => stmt_declares(*i) + block_declares(b) + stmt_declares(*u),
        _ => Seq::empty(),
    }
}

pub open spec fn block_declares(b: Seq<StmtV>) -> Seq<Seq<char>>
    decreases b,
{
    if b.len() == 0 {
        Seq::empty()
    } else {
        stmt_declares(b[0]) + block_declares(b.subrange(1, b.len() as int))
    }
}

/// The names of `used` that `declared` lacks, each once, in order of first use.
pub open spec fn undeclared(used: Seq<Seq<char>>, declared: Seq<Seq<char>>) -> Seq<Seq<char>>
    decreases used.len(),
{
    if used.len() == 0 {
        Seq::empty()
    } else {
        let d = undeclared(used.drop_last(), declared);
        let n = used.last();
        if !declared.contains(n) && !d.contains(n) { d.push(n) } else { d }
    }
}

/// A declaration or assignment of a variable that is never read keeps only its
/// right-hand side, as an expression statement.
pub open spec fn drop_unused(s: StmtV, used: Seq<Seq<char>>) -> StmtV {
    match s {
        StmtV::Let(n, e) => if used.contains(n) { s } else { StmtV::Expression(e) },
        StmtV::Assignment(n, e) => if used.contains(n) { s } else { StmtV::Expression(e) },
        _ => s,
    }
}

pub open spec fn drop_unused_all(b: Seq<StmtV>, used: Seq<Seq<char>>) -> Seq<StmtV> {
    Seq::new(b.len(), |i: int| drop_unused(b[i], used))
}

/// A record of which variable currently holds which expression.
pub type Graph = Seq<(Seq<char>, ExprV)>;

/// The first variable recorded as holding `e`; a bare variable is never
/// looked up, as it is a copy to propagate instead.
pub open spec fn lookup(g: Graph, e: ExprV) -> Option<Seq<char>>
    decreases g.len(),
{
    if e is Variable || g.len() == 0 {
        None
    } else if g[0].1 == e {
        Some(g[0].0)
    } else {
        lookup(g.drop_first(), e)
    }
}

/// `e`, or the variable that already holds it.
pub open spec fn subst(g: Graph, e: ExprV) -> ExprV {
    match lookup(g, e) {
        Some(v) => ExprV::Variable(v),
        None => e,
    }
}

pub open spec fn subst_all(g: Graph, s: Seq<ExprV>) -> Seq<ExprV> {
    Seq::new(s.len(), |i: int| subst(g, s[i]))
}

/// The variable that `v` is recorded as a copy of: the entry of `v` holds
/// exactly that variable.
pub open spec fn copy_of(g: Graph, v: Seq<char>) -> Option<Seq<char>>
    decreases g.len(),
{
    if g.len() == 0 {
        None
    } else if g[0].0 == v {
        match g[0].1 {
            ExprV::Variable(c) => Some(c),
            _ => None,
        }
    } else {
        copy_of(g.drop_first(), v)
    }
}

/// Copy propagation: every read of a variable recorded as a copy of another
/// reads that other variable instead.
pub open spec fn propagate(e: ExprV, g: Graph) -> ExprV
    decreases e,
{
    match e {
        ExprV::Variable(v) => match copy_of(g, v) {
            Some(c) => ExprV::Variable(c),
            None => e,
        },
        ExprV::Call(n, args) => ExprV::Call(n, propagate_all(args, g)),
        ExprV::Array(items) => ExprV::Array(propagate_all(items, g)),
        ExprV::Binary(l, op, r) => ExprV::Binary(Box::new(propagate(*l, g)), op, Box::new(propagate(*r, g))),
        ExprV::MethodCall(o, m, args) => ExprV::MethodCall(Box::new(propagate(*o, g)), m, propagate_all(args, g)),
        _ => e,
    }
}

pub open spec fn propagate_all(s: Seq<ExprV>, g: Graph) -> Seq<ExprV>
    decreases s,
{
    if s.len() == 0 {
        s
    } else {
        seq![propagate(s[0], g)] + propagate_all(s.subrange(1, s.len() as int), g)
    }
}

/// An expression rewritten by the record: copies propagated, then the whole
/// expression replaced by the variable that already holds it.
pub open spec fn cse_expr(g: Graph, e: ExprV) -> ExprV {
    subst(g, propagate(e, g))
}

/// The right-hand side of a declaration or assignment rewritten by the record:
/// copies propagated, then every outermost sub-expression already held by a
/// variable replaced by it.
pub open spec fn cse_rhs(g: Graph, e: ExprV) -> ExprV {
    replace(propagate(e, g), g)
}

/// The record after `n` is assigned: the entry of `n` and every entry whose
/// expression reads `n` are dropped.
pub open spec fn invalidate(g: Graph, n: Seq<char>) -> Graph
    decreases g.len(),
{
    if g.len() == 0 {
        g
    } else {
        let rest = invalidate(g.drop_last(), n);
        let last = g.last();
        if last.0 == n || vars_used(last.1).contains(n) { rest } else { rest.push(last) }
    }
}

/// The record after `n` is assigned `e`; an expression that reads `n` itself
/// no longer holds once `n` changes, so it is not recorded.
pub open spec fn record(g: Graph, n: Seq<char>, e: ExprV) -> Graph {
    if vars_used(e).contains(n) { invalidate(g, n) } else { invalidate(g, n).push((n, e)) }
}

/// The record after each of the variables `ns` may have been assigned.
pub open spec fn invalidate_all(g: Graph, ns: Seq<Seq<char>>) -> Graph
    decreases ns.len(),
{
    if ns.len() == 0 { g } else { invalidate_all(invalidate(g, ns[0]), ns.drop_first()) }
}

/// Common-subexpression elimination on one statement: the rewritten statement
/// and the record after it. Reads of recorded copies are propagated
/// everywhere. In the right-hand side of a declaration or assignment every
/// outermost sub-expression already held by a variable is replaced; elsewhere a
/// whole expression is. Branches see a copy of the record, and after a branch
/// statement every variable it may assign is dropped from the record. A loop's
/// condition and body see the record without any variable that the loop's
/// initialiser, body or update assigns, and so does what follows the loop;
/// the initialiser and update themselves stay as they are.
pub open spec fn cse_stmt(s: StmtV, g: Graph) -> (StmtV, Graph)
    decreases s,
{
    match s {
        StmtV::Let(n, e) => (StmtV::Let(n, cse_rhs(g, e)), record(g, n, cse_rhs(g, e))),
        StmtV::Assignment(n, e) => (StmtV::Assignment(n, cse_rhs(g, e)), record(g, n, cse_rhs(g, e))),
        StmtV::Return(e) => (StmtV::Return(cse_expr(g, e)), g),
        StmtV::Expression(e) => (StmtV::Expression(cse_expr(g, e)), g),
        StmtV::Call(n, args) => (StmtV::Call(n, subst_all(g, propagate_all(args, g))), g),
        StmtV::If(c, b) => (StmtV::If(cse_expr(g, c), cse_block(b, g)), invalidate_all(g, stmt_declares(s))),
        StmtV::IfElse(c, a, b) => (
            StmtV::IfElse(cse_expr(g, c), cse_block(a, g), cse_block(b, g)),
            invalidate_all(g, stmt_declares(s)),
        ),
        StmtV::ForLoop(i, c, u, b) => {
            let g2 = invalidate_all(g, stmt_declares(s));
            (StmtV::ForLoop(i, cse_expr(g2, c), u, cse_block(b, g2)), g2)
        },
        StmtV::Noop => (StmtV::Noop, g),
    }
}

/// Common-subexpression elimination on a block, in program order.
pub open spec fn cse_block(b: Seq<StmtV>, g: Graph) -> Seq<StmtV>
    decreases b,
{
    if b.len() == 0 {
        b
    } else {
        seq![cse_stmt(b[0], g).0] + cse_block(b.subrange(1, b.len() as int), cse_stmt(b[0], g).1)
    }
}

/// An expression followed by all of its sub-expressions, in pre-order.
pub open spec fn sub_exprs(e: ExprV) -> Seq<ExprV>
    decreases e,
{
    seq![e] + match e {
        ExprV::Call(_, args) => sub_exprs_all(args),
        ExprV::Array(items) => sub_exprs_all(items),
        ExprV::Binary(l, _, r) => sub_exprs(*l) + sub_exprs(*r),
        ExprV::MethodCall(o, _, args) => sub_exprs(*o) + sub_exprs_all(args),
        _ => Seq::empty(),
    }
}

pub open spec fn sub_exprs_all(s: Seq<ExprV>) -> Seq<ExprV>
    decreases s,
{
    if s.len() == 0 {
        Seq::empty()
    } else {
        sub_exprs(s[0]) + sub_exprs_all(s.subrange(1, s.len() as int))
    }
}

/// Every expression and sub-expression of a statement, nested blocks included.
pub open spec fn stmt_exprs(s: StmtV) -> Seq<ExprV>
    decreases s,
{
    match s {
        StmtV::Noop => Seq::empty(),
        StmtV::Let(_, e) => sub_exprs(e),
        StmtV::Return(e) => sub_exprs(e),
        StmtV::Expression(e) => sub_exprs(e),
        StmtV::Assignment(_, e) => sub_exprs(e),
        StmtV::Call(_, args) => sub_exprs_all(args),
        StmtV::If(c, b) => sub_exprs(c) + block_exprs(b),
        StmtV::IfElse(c, a, b) => sub_exprs(c) + block_exprs(a) + block_exprs(b),
        StmtV::ForLoop(i, c, u, b) => sub_exprs(c) + stmt_exprs(*i) + stmt_exprs(*u) + block_exprs(b),
    }
}

pub open spec fn block_exprs(b: Seq<StmtV>) -> Seq<ExprV>
    decreases b,
{
    if b.len() == 0 {
        Seq::empty()
    } else {
        stmt_exprs(b[0]) + block_exprs(b.subrange(1, b.len() as int))
    }
}

/// Whether `e` is a non-trivial expression that reads no variable of `modified`.
pub open spec fn is_invariant(e: ExprV, modified: Seq<Seq<char>>) -> bool {
    !is_inert(e) && forall|k: int| 0 <= k < vars_used(e).len() ==> !modified.contains(#[trigger] vars_used(e)[k])
}

/// The loop-invariant expressions among `cands`, each once, in order of first appearance.
pub open spec fn invariants(cands: Seq<ExprV>, modified: Seq<Seq<char>>) -> Seq<ExprV>
    decreases cands.len(),
{
    if cands.len() == 0 {
        Seq::empty()
    } else {
        let d = invariants(cands.drop_last(), modified);
        let e = cands.last();
        if is_invariant(e, modified) && !d.contains(e) { d.push(e) } else { d }
    }
}

/// The name of the `k`-th hoisted temporary: `__temp_k`.
pub open spec fn temp_name(k: nat) -> Seq<char> {
    "__temp_"@ + nat_digits(k)
}

/// The hoisting record: temporary `__temp_k` holds the `k`-th invariant expression.
pub open spec fn temps_of(inv: Seq<ExprV>) -> Graph {
    Seq::new(inv.len(), |k: int| (temp_name(k as nat), inv[k]))
}

/// Replaces every outermost occurrence of a hoisted expression by its temporary.
pub open spec fn replace(e: ExprV, t: Graph) -> ExprV
    decreases e,
{
    match lookup(t, e) {
        Some(v) => ExprV::Variable(v),
        None => match e {
            ExprV::Call(n, args) => ExprV::Call(n, replace_all(args, t)),
            ExprV::Array(items) => ExprV::Array(replace_all(items, t)),
            ExprV::Binary(l, op, r) => ExprV::Binary(Box::new(replace(*l, t)), op, Box::new(replace(*r, t))),
            ExprV::MethodCall(o, m, args) => ExprV::MethodCall(Box::new(replace(*o, t)), m, replace_all(args, t)),
            _ => e,
        },
    }
}

pub open spec fn replace_all(s: Seq<ExprV>, t: Graph) -> Seq<ExprV>
    decreases s,
{
    if s.len() == 0 {
        s
    } else {
        seq![replace(s[0], t)] + replace_all(s.subrange(1, s.len() as int), t)
    }
}

/// `replace` applied to every expression of a statement, nested blocks included.
pub open spec fn replace_stmt(s: StmtV, t: Graph) -> StmtV
    decreases s,
{
    match s {
        StmtV::Noop => StmtV::Noop,
        StmtV::Let(n, e) => StmtV::Let(n, replace(e, t)),
        StmtV::Return(e) => StmtV::Return(replace(e, t)),
        StmtV::Expression(e) => StmtV::Expression(replace(e, t)),
        StmtV::Assignment(n, e) => StmtV::Assignment(n, replace(e, t)),
        StmtV::Call(n, args) => StmtV::Call(n, replace_all(args, t)),
        StmtV::If(c, b) => StmtV::If(replace(c, t), replace_block(b, t)),
        StmtV::IfElse(c, a, b) => StmtV::IfElse(replace(c, t), replace_block(a, t), replace_block(b, t)),
        StmtV::ForLoop(i, c, u, b) => StmtV::ForLoop(
            Box::new(replace_stmt(*i, t)),
            replace(c, t),
            Box::new(replace_stmt(*u, t)),
            replace_block(b, t),
        ),
    }
}

pub open spec fn replace_block(b: Seq<StmtV>, t: Graph) -> Seq<StmtV>
    decreases b,
{
    if b.len() == 0 {
        b
    } else {
        seq![replace_stmt(b[0], t)] + replace_block(b.subrange(1, b.len() as int), t)
    }
}

/// The `let` statements that hoist each recorded expression into its temporary.
pub open spec fn hoisted(t: Graph) -> Seq<StmtV> {
    Seq::new(t.len(), |k: int| StmtV::Let(t[k].0, t[k].1))
}

/// Loop-invariant code motion on one statement; the result replaces it.
pub open spec fn licm_stmt(s: StmtV) -> Seq<StmtV>
    decreases s,
{
    match s {
        StmtV::ForLoop(i, c, u, b) => {
            let modified = stmt_declares(*i) + block_declares(b) + stmt_declares(*u);
            let t = temps_of(invariants(block_exprs(b), modified));
            hoisted(t).push(StmtV::ForLoop(i, c, u, replace_block(b, t)))
        },
        StmtV::If(c, b) => seq![StmtV::If(c, licm_block(b))],
        StmtV::IfElse(c, a, b) => seq![StmtV::IfElse(c, licm_block(a), licm_block(b))],
        _ => seq![s],
    }
}

/// Loop-invariant code motion on a block: every loop's invariant expressions are
/// hoisted into fresh temporaries declared just before it.
pub open spec fn licm_block(b: Seq<StmtV>) -> Seq<StmtV>
    decreases b,
{
    if b.len() == 0 {
        b
    } else {
        licm_stmt(b[0]) + licm_block(b.subrange(1, b.len() as int))
    }
}

/// The statement every round appends to a function body.
pub open spec fn return_none() -> StmtV {
    StmtV::Return(ExprV::Uninitialized)
}

/// One optimisation round on a function body with parameters `params`: the
/// rewritten body, or the undeclared variables it reads.
pub open spec fn clean_round(params: Seq<Seq<char>>, body: Seq<StmtV>) -> Result<Seq<StmtV>, Seq<Seq<char>>> {
    let b1 = simplify_stmts(prune_block(body.push(return_none())));
    let used = block_uses(b1);
    let und = undeclared(used, params + block_declares(b1));
    if und.len() > 0 {
        Err(und)
    } else {
        Ok(licm_block(cse_block(drop_unused_all(b1, used), Seq::empty())))
    }
}

/// `n` optimisation rounds, stopping at the first that finds undeclared variables.
pub open spec fn clean_rounds(params: Seq<Seq<char>>, body: Seq<StmtV>, n: nat) -> Result<Seq<StmtV>, Seq<Seq<char>>>
    decreases n,
{
    if n == 0 {
        Ok(body)
    } else {
        match clean_round(params, body) {
            Err(u) => Err(u),
            Ok(b) => clean_rounds(params, b, (n - 1) as nat),
        }
    }
}

/// A function after the three optimisation rounds.
pub open spec fn clean_function_spec(f: FunctionV) -> Result<FunctionV, Seq<Seq<char>>> {
    match clean_rounds(f.params, f.body, 3) {
        Err(u) => Err(u),
        Ok(b) => Ok(FunctionV { name: f.name, params: f.params, body: b }),
    }
}

/// The functions of a region body, in order.
pub open spec fn functions_of(items: Seq<ItemV>) -> Seq<ItemV>
    decreases items.len(),
{
    if items.len() == 0 {
        items
    } else {
        let rest = functions_of(items.drop_last());
        if items.last() is Function { rest.push(items.last()) } else { rest }
    }
}

/// The bare statements of a region body, in order.
pub open spec fn statements_of(items: Seq<ItemV>) -> Seq<StmtV>
    decreases items.len(),
{
    if items.len() == 0 {
        Seq::empty()
    } else {
        let rest = statements_of(items.drop_last());
        match items.last() {
            ItemV::Statement(s) => rest.push(s),
            _ => rest,
        }
    }
}

/// Top-level lifting: the bare statements of a region become the body of a
/// function `main` without parameters, placed after all other functions.
pub open spec fn lift_toplevel(r: RegionV) -> RegionV {
    let stmts = statements_of(r.body);
    let fns = functions_of(r.body);
    RegionV {
        name: r.name,
        body: if stmts.len() == 0 {
            fns
        } else {
            fns.push(ItemV::Function(FunctionV { name: "main"@, params: Seq::empty(), body: stmts }))
        },
    }
}

/// Every function of a region body cleaned, or the first function's undeclared variables.
pub open spec fn clean_items(items: Seq<ItemV>) -> Result<Seq<ItemV>, Seq<Seq<char>>>
    decreases items.len(),
{
    if items.len() == 0 {
        Ok(items)
    } else {
        let head = match items[0] {
            ItemV::Function(f) => match clean_function_spec(f) {
                Ok(g) => Ok(ItemV::Function(g)),
                Err(u) => Err(u),
            },
            ItemV::Statement(s) => Ok(ItemV::Statement(s)),
        };
        match head {
            Err(u) => Err(u),
            Ok(h) => match clean_items(items.drop_first()) {
                Err(u) => Err(u),
                Ok(t) => Ok(seq![h] + t),
            },
        }
    }
}

/// A region after lifting and three optimisation rounds on every function.
pub open spec fn clean_region(r: RegionV) -> Result<RegionV, Seq<Seq<char>>> {
    let l = lift_toplevel(r);
    match clean_items(l.body) {
        Err(u) => Err(u),
        Ok(b) => Ok(RegionV { name: l.name, body: b }),
    }
}

} // verus!
