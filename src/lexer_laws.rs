//! The lexer's round trip: the tokens of an input, written out separated by
//! single spaces, lex back to the same tokens.
use vstd::prelude::*;

use crate::lexer::{begin, extend, flushed, lex, lex_prefix, lex_step, special_token, word_extended};
use crate::token::{keyword_text, operator_text, Operator, TokenV};

verus! {

/// How a token is written.
pub open spec fn surface(t: TokenV) -> Seq<char> {
    match t {
        TokenV::Identifier(s) => s,
        TokenV::Number(s) => s,
        TokenV::Keyword(k) => keyword_text(k),
        TokenV::Operator(o) => operator_text(o),
        TokenV::Lcur => seq!['{'],
        TokenV::Rcur => seq!['}'],
        TokenV::Lpar => seq!['('],
        TokenV::Rpar => seq![')'],
        TokenV::Semi => seq![';'],
        TokenV::Comma => seq![','],
        TokenV::Dot => seq!['.'],
        TokenV::Lbrack => seq!['['],
        TokenV::Rbrack => seq![']'],
    }
}

/// Tokens written out, separated by single spaces.
pub open spec fn spaced(ts: Seq<TokenV>) -> Seq<char>
    decreases ts.len(),
{
    if ts.len() == 0 {
        Seq::empty()
    } else if ts.len() == 1 {
        surface(ts[0])
    } else {
        spaced(ts.drop_last()) + seq![' '] + surface(ts.last())
    }
}

pub open spec fn is_punct(t: TokenV) -> bool {
    !(t is Identifier || t is Number || t is Keyword || t is Operator)
}

/// The automaton run over `cs` from the state `st`.
pub open spec fn run_from(st: (Seq<TokenV>, Option<TokenV>), cs: Seq<char>) -> Option<(Seq<TokenV>, Option<TokenV>)>
    decreases cs.len(),
{
    if cs.len() == 0 {
        Some(st)
    } else {
        match run_from(st, cs.drop_last()) {
            None => None,
            Some(s) => lex_step(s.0, s.1, cs.last()),
        }
    }
}

/// A token that the automaton reads back from its written form alone.
pub open spec fn rereadable(t: TokenV) -> bool {
    is_punct(t) || run_from((Seq::empty(), None), surface(t)) == Some((Seq::<TokenV>::empty(), Some(t)))
}

proof fn lemma_compose(a: Seq<char>, st: (Seq<TokenV>, Option<TokenV>), b: Seq<char>, st2: (Seq<TokenV>, Option<TokenV>))
    requires
        lex_prefix(a) == Ok::<(Seq<TokenV>, Option<TokenV>), nat>(st),
        run_from(st, b) == Some(st2),
    ensures
        lex_prefix(a + b) == Ok::<(Seq<TokenV>, Option<TokenV>), nat>(st2),
    decreases b.len(),
{
    if b.len() == 0 {
        assert(a + b =~= a);
    } else {
        let s = run_from(st, b.drop_last())->0;
        lemma_compose(a, st, b.drop_last(), s);
        assert((a + b).drop_last() =~= a + b.drop_last());
        assert((a + b).last() == b.last());
    }
}

proof fn lemma_step_frame(pre: Seq<TokenV>, toks: Seq<TokenV>, cur: Option<TokenV>, c: char)
    requires
        lex_step(toks, cur, c) is Some,
    ensures
        ({
            let r = lex_step(toks, cur, c)->0;
            lex_step(pre + toks, cur, c) == Some((pre + r.0, r.1))
        }),
{
    assert(flushed(pre + toks, cur) =~= pre + flushed(toks, cur));
    match special_token(c) {
        Some(s) => {
            assert(flushed(pre + toks, cur).push(s) =~= pre + flushed(toks, cur).push(s));
        },
        None => {},
    }
}

proof fn lemma_run_frame(pre: Seq<TokenV>, toks: Seq<TokenV>, cur: Option<TokenV>, cs: Seq<char>)
    requires
        run_from((toks, cur), cs) is Some,
    ensures
        ({
            let r = run_from((toks, cur), cs)->0;
            run_from((pre + toks, cur), cs) == Some((pre + r.0, r.1))
        }),
    decreases cs.len(),
{
    if cs.len() > 0 {
        lemma_run_frame(pre, toks, cur, cs.drop_last());
        let s = run_from((toks, cur), cs.drop_last())->0;
        lemma_step_frame(pre, s.0, s.1, cs.last());
    }
}

proof fn lemma_run_one(st: (Seq<TokenV>, Option<TokenV>), c: char)
    ensures
        run_from(st, seq![c]) == lex_step(st.0, st.1, c),
{
    let one = seq![c];
    assert(one.drop_last() =~= Seq::<char>::empty());
    assert(run_from(st, one.drop_last()) == Some(st));
    assert(one.last() == c);
}

proof fn lemma_run_push(st: (Seq<TokenV>, Option<TokenV>), s: Seq<char>, c: char)
    ensures
        run_from(st, s.push(c)) == match run_from(st, s) {
            None => None,
            Some(x) => lex_step(x.0, x.1, c),
        },
{
    assert(s.push(c).drop_last() =~= s);
}

proof fn lemma_extend_surface(t: TokenV, c: char)
    requires
        extend(t, c) is Some,
    ensures
        surface(extend(t, c)->0) == surface(t).push(c),
        !is_punct(extend(t, c)->0),
{
    reveal_strlit("-");
    match t {
        TokenV::Operator(o) => {
            if o == Operator::Minus {
                assert(seq!['-', c] =~= operator_text(o).push(c));
            }
        },
        _ => {},
    }
}

proof fn lemma_begin_surface(c: char)
    requires
        begin(c) is Some,
    ensures
        surface(begin(c)->0) == seq![c],
        !is_punct(begin(c)->0),
{
}

/// Every token that lexing emits, and the token it holds, reads back alone.
proof fn lemma_lex_rereadable(cs: Seq<char>)
    requires
        lex_prefix(cs) is Ok,
    ensures
        forall|i: int| 0 <= i < lex_prefix(cs)->Ok_0.0.len() ==> rereadable(#[trigger] lex_prefix(cs)->Ok_0.0[i]),
        lex_prefix(cs)->Ok_0.1 matches Some(t) ==> rereadable(t) && !is_punct(t),
    decreases cs.len(),
{
    if cs.len() > 0 {
        let pre = cs.drop_last();
        let c = cs.last();
        lemma_lex_rereadable(pre);
        let st = lex_prefix(pre)->Ok_0;
        let toks = st.0;
        let cur = st.1;
        let e = Seq::<TokenV>::empty();
        let fl = flushed(toks, cur);
        assert forall|i: int| 0 <= i < fl.len() implies rereadable(#[trigger] fl[i]) by {
            if i < toks.len() {
                assert(fl[i] == toks[i]);
            }
        }
        if crate::lexer::is_separator(c) {
            let next = lex_step(toks, cur, c)->0;
            let out = next.0;
            assert forall|i: int| 0 <= i < out.len() implies rereadable(#[trigger] out[i]) by {
                if i < fl.len() {
                    assert(out[i] == fl[i]);
                }
            }
        } else if cur is Some && extend(cur->0, c) is Some {
            lemma_extend_surface(cur->0, c);
            lemma_run_push((e, None), surface(cur->0), c);
        } else {
            lemma_begin_surface(c);
            lemma_run_one((e, None), c);
            assert(flushed(e, None) == e);
        }
    }
}

/// The state the automaton is in after the written form of `ts`.
pub open spec fn spaced_state(ts: Seq<TokenV>) -> (Seq<TokenV>, Option<TokenV>) {
    if ts.len() == 0 {
        (Seq::empty(), None)
    } else if is_punct(ts.last()) {
        (ts, None)
    } else {
        (ts.drop_last(), Some(ts.last()))
    }
}

proof fn lemma_token_run(toks: Seq<TokenV>, t: TokenV)
    requires
        rereadable(t),
    ensures
        run_from((toks, None), surface(t)) == Some(spaced_state(toks.push(t))),
{
    if is_punct(t) {
        lemma_run_one((toks, None), surface(t)[0]);
        assert(seq![surface(t)[0]] =~= surface(t));
        assert(toks.push(t).drop_last() =~= toks);
    } else {
        let e = Seq::<TokenV>::empty();
        lemma_run_frame(toks, e, None, surface(t));
        assert(toks + e =~= toks);
        assert(toks.push(t).drop_last() =~= toks);
    }
}

proof fn lemma_spaced(ts: Seq<TokenV>)
    requires
        forall|i: int| 0 <= i < ts.len() ==> rereadable(#[trigger] ts[i]),
    ensures
        lex_prefix(spaced(ts)) == Ok::<(Seq<TokenV>, Option<TokenV>), nat>(spaced_state(ts)),
    decreases ts.len(),
{
    let e = Seq::<TokenV>::empty();
    if ts.len() == 0 {
    } else if ts.len() == 1 {
        assert(e.push(ts[0]) =~= ts);
        lemma_token_run(e, ts[0]);
        assert(lex_prefix(Seq::<char>::empty()) == Ok::<(Seq<TokenV>, Option<TokenV>), nat>((e, None)));
        lemma_compose(Seq::empty(), (e, None), surface(ts[0]), spaced_state(ts));
        assert(Seq::<char>::empty() + surface(ts[0]) =~= surface(ts[0]));
    } else {
        let pre = ts.drop_last();
        let last = ts.last();
        assert forall|i: int| 0 <= i < pre.len() implies rereadable(#[trigger] pre[i]) by {
            assert(pre[i] == ts[i]);
        }
        lemma_spaced(pre);
        let sp = spaced_state(pre);
        lemma_run_one(sp, ' ');
        assert(pre.drop_last().push(pre.last()) =~= pre);
        assert(run_from(sp, seq![' ']) == Some((pre, None::<TokenV>)));
        lemma_compose(spaced(pre), sp, seq![' '], (pre, None));
        lemma_token_run(pre, last);
        assert(pre.push(last) =~= ts);
        lemma_compose(spaced(pre) + seq![' '], (pre, None), surface(last), spaced_state(ts));
    }
}

/// Lexer round trip: where an input lexes to tokens `ts`, writing `ts` out
/// separated by single spaces gives an input that lexes to `ts` again.
pub proof fn lemma_lex_round_trip(cs: Seq<char>)
    requires
        lex(cs) is Ok,
    ensures
        lex(spaced(lex(cs)->Ok_0)) == lex(cs),
{
    lemma_lex_rereadable(cs);
    let st = lex_prefix(cs)->Ok_0;
    let ts = flushed(st.0, st.1);
    assert forall|i: int| 0 <= i < ts.len() implies rereadable(#[trigger] ts[i]) by {
        if i < st.0.len() {
            assert(ts[i] == st.0[i]);
        }
    }
    lemma_spaced(ts);
    let fin = spaced_state(ts);
    assert(lex(cs) == Ok::<Seq<TokenV>, nat>(ts));
    if ts.len() > 0 && !is_punct(ts.last()) {
        assert(fin.0.push(ts.last()) =~= ts);
        assert(flushed(fin.0, fin.1) == ts);
    } else if ts.len() > 0 {
        assert(flushed(fin.0, fin.1) == ts);
    } else {
        assert(flushed(fin.0, fin.1) =~= ts);
    }
    assert(lex(spaced(ts)) == Ok::<Seq<TokenV>, nat>(flushed(fin.0, fin.1)));
}

} // verus!
