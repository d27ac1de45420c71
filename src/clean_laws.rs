//! What one optimisation round guarantees of the statements of a body.
use vstd::prelude::*;

use crate::ast::{FunctionV, StmtV};
use crate::passes::{
    block_returns, clean_round, cse_block, cse_stmt, drop_unused, drop_unused_all, hoisted, licm_block, licm_stmt,
    clean_function_spec, clean_rounds, prune_block, prune_stmt, simplify_stmt, simplify_stmts, stmt_returns, Graph,
};

verus! {

/// No statement of the block follows one that returns.
pub open spec fn dead_free(b: Seq<StmtV>) -> bool
    decreases b.len(),
{
    b.len() <= 1 || (!stmt_returns(b[0]) && dead_free(b.subrange(1, b.len() as int)))
}

proof fn lemma_block_returns_exists(b: Seq<StmtV>)
    ensures
        block_returns(b) <==> exists|i: int| 0 <= i < b.len() && stmt_returns(#[trigger] b[i]),
    decreases b.len(),
{
    if b.len() > 0 {
        let rest = b.subrange(1, b.len() as int);
        lemma_block_returns_exists(rest);
        if block_returns(rest) {
            let i = choose|i: int| 0 <= i < rest.len() && stmt_returns(#[trigger] rest[i]);
            assert(b[i + 1] == rest[i]);
        }
        if exists|i: int| 0 <= i < b.len() && stmt_returns(#[trigger] b[i]) {
            let i = choose|i: int| 0 <= i < b.len() && stmt_returns(#[trigger] b[i]);
            if i > 0 {
                assert(rest[i - 1] == b[i]);
            }
        }
    }
}

proof fn lemma_head_rest(x: StmtV, y: Seq<StmtV>)
    ensures
        (seq![x] + y)[0] == x,
        (seq![x] + y).subrange(1, (seq![x] + y).len() as int) == y,
        (seq![x] + y).len() == y.len() + 1,
{
    assert((seq![x] + y).subrange(1, (seq![x] + y).len() as int) =~= y);
}

proof fn lemma_prune_dead_free(b: Seq<StmtV>)
    ensures
        dead_free(prune_block(b)),
    decreases b.len(),
{
    if b.len() > 0 && !stmt_returns(prune_stmt(b[0])) {
        lemma_prune_dead_free(b.subrange(1, b.len() as int));
        lemma_head_rest(prune_stmt(b[0]), prune_block(b.subrange(1, b.len() as int)));
    }
}

proof fn lemma_simplify_returns(s: StmtV)
    ensures
        stmt_returns(simplify_stmt(s)) == stmt_returns(s),
    decreases s,
{
    match s {
        StmtV::IfElse(_, a, b) => {
            lemma_simplify_block_returns(a);
            lemma_simplify_block_returns(b);
        },
        _ => {},
    }
}

proof fn lemma_simplify_block_returns(b: Seq<StmtV>)
    ensures
        block_returns(simplify_stmts(b)) == block_returns(b),
    decreases b,
{
    if b.len() > 0 {
        let rest = b.subrange(1, b.len() as int);
        lemma_simplify_returns(b[0]);
        lemma_simplify_block_returns(rest);
        lemma_head_rest(simplify_stmt(b[0]), simplify_stmts(rest));
    }
}

proof fn lemma_simplify_dead_free(b: Seq<StmtV>)
    requires
        dead_free(b),
    ensures
        dead_free(simplify_stmts(b)),
    decreases b.len(),
{
    if b.len() > 0 {
        let rest = b.subrange(1, b.len() as int);
        lemma_head_rest(simplify_stmt(b[0]), simplify_stmts(rest));
        if rest.len() > 0 {
            lemma_simplify_returns(b[0]);
            lemma_simplify_dead_free(rest);
        } else {
            assert(simplify_stmts(rest) =~= Seq::<StmtV>::empty());
        }
    }
}

proof fn lemma_drop_dead_free(b: Seq<StmtV>, used: Seq<Seq<char>>)
    requires
        dead_free(b),
    ensures
        dead_free(drop_unused_all(b, used)),
    decreases b.len(),
{
    if b.len() > 1 {
        let rest = b.subrange(1, b.len() as int);
        let d = drop_unused_all(b, used);
        assert(d.subrange(1, d.len() as int) =~= drop_unused_all(rest, used));
        assert(stmt_returns(drop_unused(b[0], used)) == stmt_returns(b[0]));
        lemma_drop_dead_free(rest, used);
    }
}

proof fn lemma_cse_returns(s: StmtV, g: Graph)
    ensures
        stmt_returns(cse_stmt(s, g).0) == stmt_returns(s),
    decreases s,
{
    match s {
        StmtV::IfElse(_, a, b) => {
            lemma_cse_block_returns(a, g);
            lemma_cse_block_returns(b, g);
        },
        _ => {},
    }
}

proof fn lemma_cse_block_returns(b: Seq<StmtV>, g: Graph)
    ensures
        block_returns(cse_block(b, g)) == block_returns(b),
    decreases b,
{
    if b.len() > 0 {
        let rest = b.subrange(1, b.len() as int);
        lemma_cse_returns(b[0], g);
        lemma_cse_block_returns(rest, cse_stmt(b[0], g).1);
        lemma_head_rest(cse_stmt(b[0], g).0, cse_block(rest, cse_stmt(b[0], g).1));
    }
}

proof fn lemma_cse_dead_free(b: Seq<StmtV>, g: Graph)
    requires
        dead_free(b),
    ensures
        dead_free(cse_block(b, g)),
    decreases b.len(),
{
    if b.len() > 0 {
        let rest = b.subrange(1, b.len() as int);
        let g1 = cse_stmt(b[0], g).1;
        lemma_head_rest(cse_stmt(b[0], g).0, cse_block(rest, g1));
        if rest.len() > 0 {
            lemma_cse_returns(b[0], g);
            lemma_cse_dead_free(rest, g1);
        } else {
            assert(cse_block(rest, g1) =~= Seq::<StmtV>::empty());
        }
    }
}

proof fn lemma_dead_free_concat(x: Seq<StmtV>, y: Seq<StmtV>)
    requires
        dead_free(x),
        dead_free(y),
        x.len() == 0 || y.len() == 0 || !stmt_returns(x.last()),
    ensures
        dead_free(x + y),
    decreases x.len(),
{
    if x.len() == 0 {
        assert(x + y =~= y);
    } else {
        let xr = x.subrange(1, x.len() as int);
        assert((x + y).subrange(1, (x + y).len() as int) =~= xr + y);
        assert((x + y)[0] == x[0]);
        if xr.len() > 0 {
            assert(xr.last() == x.last());
            lemma_dead_free_concat(xr, y);
        } else {
            assert(xr + y =~= y);
        }
    }
}

proof fn lemma_hoisted_dead_free(h: Seq<StmtV>, last: StmtV)
    requires
        forall|k: int| 0 <= k < h.len() ==> !stmt_returns(#[trigger] h[k]),
    ensures
        dead_free(h.push(last)),
        block_returns(h.push(last)) == stmt_returns(last),
    decreases h.len(),
{
    let full = h.push(last);
    lemma_block_returns_exists(full);
    if block_returns(full) {
        let k = choose|k: int| 0 <= k < full.len() && stmt_returns(#[trigger] full[k]);
        if k < h.len() {
            assert(full[k] == h[k]);
        }
    }
    assert(full[h.len() as int] == last);
    if h.len() > 0 {
        let hr = h.subrange(1, h.len() as int);
        assert forall|k: int| 0 <= k < hr.len() implies !stmt_returns(#[trigger] hr[k]) by {
            assert(hr[k] == h[k + 1]);
        }
        lemma_hoisted_dead_free(hr, last);
        assert(h.push(last).subrange(1, h.push(last).len() as int) =~= hr.push(last));
        assert(h.push(last)[0] == h[0]);
    } else {
        assert(h.push(last) =~= seq![last]);
        assert(seq![last].subrange(1, 1) =~= Seq::<StmtV>::empty());
    }
}

proof fn lemma_licm_stmt(s: StmtV)
    ensures
        licm_stmt(s).len() > 0,
        dead_free(licm_stmt(s)),
        stmt_returns(licm_stmt(s).last()) == stmt_returns(s),
        block_returns(licm_stmt(s)) == stmt_returns(s),
    decreases s,
{
    match s {
        StmtV::ForLoop(i, c, u, b) => {
            let out = licm_stmt(s);
            let last = out.last();
            let h = out.drop_last();
            assert(h.push(last) =~= out);
            assert forall|k: int| 0 <= k < h.len() implies !stmt_returns(#[trigger] h[k]) by {
                assert(h[k] is Let);
            }
            lemma_hoisted_dead_free(h, last);
            assert(last is ForLoop);
            assert(block_returns(out) == block_returns(h.push(last)));
            assert(!stmt_returns(last));
            assert(!block_returns(out));
            assert(!stmt_returns(s));
        },
        _ => {
            let x = licm_stmt(s)[0];
            assert(licm_stmt(s) =~= seq![x]);
            assert(seq![x].subrange(1, 1) =~= Seq::<StmtV>::empty());
            match s {
                StmtV::IfElse(_, a, b) => {
                    lemma_licm_block(a);
                    lemma_licm_block(b);
                },
                _ => {},
            }
            assert(stmt_returns(x) == stmt_returns(s));
            assert(block_returns(seq![x]) == (stmt_returns(x) || block_returns(seq![x].subrange(1, 1))));
            assert(!block_returns(Seq::<StmtV>::empty()));
        },
    }
}

proof fn lemma_licm_block(b: Seq<StmtV>)
    ensures
        block_returns(licm_block(b)) == block_returns(b),
        dead_free(b) ==> dead_free(licm_block(b)),
    decreases b,
{
    if b.len() > 0 {
        let rest = b.subrange(1, b.len() as int);
        lemma_licm_stmt(b[0]);
        lemma_licm_block(rest);
        let x = licm_stmt(b[0]);
        let y = licm_block(rest);
        lemma_block_returns_exists(x);
        lemma_block_returns_exists(y);
        lemma_block_returns_exists(x + y);
        if block_returns(x + y) {
            let k = choose|k: int| 0 <= k < (x + y).len() && stmt_returns(#[trigger] (x + y)[k]);
            if k >= x.len() {
                assert(y[k - x.len()] == (x + y)[k]);
            }
        }
        if block_returns(x) {
            let k = choose|k: int| 0 <= k < x.len() && stmt_returns(#[trigger] x[k]);
            assert((x + y)[k] == x[k]);
        }
        if block_returns(y) {
            let k = choose|k: int| 0 <= k < y.len() && stmt_returns(#[trigger] y[k]);
            assert((x + y)[k + x.len()] == y[k]);
        }
        if dead_free(b) {
            if rest.len() == 0 {
                assert(y =~= Seq::<StmtV>::empty());
            }
            lemma_dead_free_concat(x, y);
        }
    }
}

/// After every optimisation round no statement of a function body follows
/// one that returns: code after a `return` never reaches the generated module.
pub proof fn lemma_round_leaves_nothing_after_return(params: Seq<Seq<char>>, body: Seq<StmtV>)
    requires
        clean_round(params, body) is Ok,
    ensures
        dead_free(clean_round(params, body)->Ok_0),
{
    let b0 = prune_block(body.push(crate::passes::return_none()));
    lemma_prune_dead_free(body.push(crate::passes::return_none()));
    lemma_simplify_dead_free(b0);
    let b1 = simplify_stmts(b0);
    let used = crate::passes::block_uses(b1);
    lemma_drop_dead_free(b1, used);
    lemma_cse_dead_free(drop_unused_all(b1, used), Seq::empty());
    lemma_licm_block(cse_block(drop_unused_all(b1, used), Seq::empty()));
}

/// After one or more rounds no statement of the body follows one that returns.
pub proof fn lemma_rounds_leave_nothing_after_return(params: Seq<Seq<char>>, body: Seq<StmtV>, n: nat)
    requires
        n > 0,
        clean_rounds(params, body, n) is Ok,
    ensures
        dead_free(clean_rounds(params, body, n)->Ok_0),
    decreases n,
{
    let b = clean_round(params, body)->Ok_0;
    if n == 1 {
        lemma_round_leaves_nothing_after_return(params, body);
        assert(clean_rounds(params, b, 0) == Ok::<Seq<StmtV>, Seq<Seq<char>>>(b));
    } else {
        lemma_rounds_leave_nothing_after_return(params, b, (n - 1) as nat);
    }
}

/// A cleaned function has no statement after one that returns.
pub proof fn lemma_cleaned_function_has_nothing_after_return(f: FunctionV)
    requires
        clean_function_spec(f) is Ok,
    ensures
        dead_free(clean_function_spec(f)->Ok_0.body),
{
    lemma_rounds_leave_nothing_after_return(f.params, f.body, 3);
}

} // verus!
