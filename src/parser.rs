//! The parser: tokens to a region, by recursive descent over the grammar
//!
//! ```text
//! Region   -> "region" Ident "{" Item* "}"
//! Item     -> Function ";"? | Line ";"
//! Function -> "fn" Ident "(" (Ident ("," Ident)*)? ")" "{" (Line ";")* "}"
//! Line     -> "let" Ident "=" Rvalue | "return" Rvalue | Ident "=" Rvalue
//!           | "if" Rvalue "{" Lines "}" ("else" "{" Lines "}")?
//!           | "for" "(" Line ";" Rvalue ";" Line ")" "{" Lines "}" | Rvalue
//! Rvalue   -> Sum (("<" | ">" | "<=" | ">=") Sum)*
//! Sum      -> Term (("+" | "-") Term)*
//! Term     -> Operand (("*" | "/") Operand)*
//! Operand  -> (Number | "[" "]" | Ident | Ident "(" Args ")") ("." Ident "(" Args ")")*
//! Args     -> (Rvalue ("," Rvalue)*)?
//! ```
//!
//! Binary operators associate to the left; comparison binds loosest, then
//! `+ -`, then `* /`. Each production is tried in order and the first that
//! matches wins; the first failure is fatal.
use vstd::prelude::*;
use vstd::string::*;

use crate::ast::{
    exprs_view, items_view, lemma_exprs_view_push, lemma_stmts_view_push, param_names, stmts_view, BinaryOp, Expr,
    ExprV, Function, FunctionV, ItemV, Region, RegionItem, RegionV, Statement, StmtV, Type, Variable,
};
use crate::lexer::{is_digit, tokens_view};
use crate::passes::fits_i32;
use crate::token::{Keyword, Operator, Token, TokenV};

verus! {

/// The value of a string of decimal digits.
pub open spec fn digits_value(s: Seq<char>) -> int
    decreases s.len(),
{
    if s.len() == 0 {
        0
    } else {
        digits_value(s.drop_last()) * 10 + (s.last() as int - '0' as int)
    }
}

pub open spec fn all_digits(s: Seq<char>) -> bool {
    forall|i: int| 0 <= i < s.len() ==> is_digit(#[trigger] s[i])
}

/// The value of a number token's text: an optional `-` and decimal digits,
/// where the value fits in 32 bits.
pub open spec fn number_value(s: Seq<char>) -> Option<i32> {
    if s.len() > 0 && s[0] == '-' {
        let d = s.drop_first();
        if d.len() > 0 && all_digits(d) && fits_i32(-digits_value(d)) {
            Some((-digits_value(d)) as i32)
        } else {
            None
        }
    } else if s.len() > 0 && all_digits(s) && fits_i32(digits_value(s)) {
        Some(digits_value(s) as i32)
    } else {
        None
    }
}

proof fn lemma_digits_grow(s: Seq<char>, k: int)
    requires
        0 <= k <= s.len(),
        all_digits(s),
    ensures
        digits_value(s.subrange(0, k)) <= digits_value(s),
        0 <= digits_value(s.subrange(0, k)),
    decreases s.len(),
{
    if s.len() > 0 {
        assert(s.drop_last().subrange(0, if k < s.len() { k } else { 0 }) =~= s.subrange(0, if k < s.len() { k } else { 0 }));
        assert(all_digits(s.drop_last())) by {
            assert forall|i: int| 0 <= i < s.drop_last().len() implies is_digit(#[trigger] s.drop_last()[i]) by {
                assert(is_digit(s[i]));
            }
        }
        if k < s.len() {
            lemma_digits_grow(s.drop_last(), k);
        } else {
            assert(s.subrange(0, k) =~= s);
            lemma_digits_grow(s.drop_last(), 0);
        }
        lemma_digits_grow(s.drop_last(), s.len() - 1);
        assert(s.drop_last().subrange(0, s.len() - 1) =~= s.drop_last());
        assert(is_digit(s[s.len() - 1]));
    } else {
        assert(s.subrange(0, k) =~= s);
    }
}

/// The value of the digits `s[from..]`, or `None` when they are absent, not all
/// digits, or exceed `bound`.
fn digits_upto(s: &Vec<char>, from: usize, bound: i64) -> (r: Option<i64>)
    requires
        from <= s@.len(),
        0 <= bound <= 0x1_0000_0000,
    ensures
        ({
            let d = s@.subrange(from as int, s@.len() as int);
            match r {
                Some(v) => d.len() > 0 && all_digits(d) && v == digits_value(d) && v <= bound,
                None => !(d.len() > 0 && all_digits(d) && digits_value(d) <= bound),
            }
        }),
{
    let ghost d = s@.subrange(from as int, s@.len() as int);
    if from == s.len() {
        return None;
    }
    let mut v: i64 = 0;
    let mut i: usize = from;
    assert(d.subrange(0, 0) =~= Seq::<char>::empty());
    while i < s.len()
        invariant
            from <= i <= s@.len(),
            d == s@.subrange(from as int, s@.len() as int),
            0 <= bound <= 0x1_0000_0000,
            0 <= v <= bound,
            v == digits_value(d.subrange(0, i - from)),
            all_digits(d.subrange(0, i - from)),
        decreases s@.len() - i,
    {
        let c = s[i];
        let ghost pre = d.subrange(0, i - from + 1);
        assert(pre.drop_last() =~= d.subrange(0, i - from));
        assert(pre.last() == c);
        if !('0' <= c && c <= '9') {
            proof {
                assert(!is_digit(d[i - from]));
            }
            return None;
        }
        let code: u32 = c as u32;
        assert(48 <= code <= 57);
        let next: i64 = v * 10 + (code - 48) as i64;
        assert(next == digits_value(pre));
        assert(all_digits(pre)) by {
            assert forall|j: int| 0 <= j < pre.len() implies is_digit(#[trigger] pre[j]) by {
                if j < pre.len() - 1 {
                    assert(pre[j] == d.subrange(0, i - from)[j]);
                }
            }
        }
        if next > bound {
            proof {
                if all_digits(d) {
                    lemma_digits_grow(d, i - from + 1);
                }
            }
            return None;
        }
        v = next;
        i = i + 1;
    }
    assert(d.subrange(0, i - from) =~= d);
    Some(v)
}

/// The value of a number token's text.
fn number_of(text: &String) -> (r: Option<i32>)
    ensures
        r == number_value(text@),
{
    let s = crate::text::chars_of(text.as_str());
    proof {
        if s@.len() > 0 && all_digits(s@.drop_first()) {
            lemma_digits_grow(s@.drop_first(), s@.drop_first().len() as int);
            assert(s@.drop_first().subrange(0, s@.drop_first().len() as int) =~= s@.drop_first());
        }
        if all_digits(s@) {
            lemma_digits_grow(s@, s@.len() as int);
            assert(s@.subrange(0, s@.len() as int) =~= s@);
        }
    }
    if s.len() > 0 && s[0] == '-' {
        assert(s@.subrange(1, s@.len() as int) =~= s@.drop_first());
        match digits_upto(&s, 1, 0x8000_0000) {
            Some(v) => Some((-v) as i32),
            None => None,
        }
    } else {
        assert(s@.subrange(0, s@.len() as int) =~= s@);
        match digits_upto(&s, 0, 0x7fff_ffff) {
            Some(v) => Some(v as i32),
            None => None,
        }
    }
}

/// The comparison operator a token stands for.
pub open spec fn cmp_op(t: TokenV) -> Option<BinaryOp> {
    match t {
        TokenV::Operator(Operator::LessThan) => Some(BinaryOp::LessThan),
        TokenV::Operator(Operator::GreaterThan) => Some(BinaryOp::GreaterThan),
        TokenV::Operator(Operator::LessThanOrEqual) => Some(BinaryOp::LessThanOrEqual),
        TokenV::Operator(Operator::GreaterThanOrEqual) => Some(BinaryOp::GreaterThanOrEqual),
        _ => None,
    }
}

/// The additive operator a token stands for.
pub open spec fn sum_op(t: TokenV) -> Option<BinaryOp> {
    match t {
        TokenV::Operator(Operator::Plus) => Some(BinaryOp::Add),
        TokenV::Operator(Operator::Minus) => Some(BinaryOp::Sub),
        _ => None,
    }
}

/// The multiplicative operator a token stands for.
pub open spec fn term_op(t: TokenV) -> Option<BinaryOp> {
    match t {
        TokenV::Operator(Operator::Mult) => Some(BinaryOp::Mult),
        TokenV::Operator(Operator::Div) => Some(BinaryOp::Div),
        _ => None,
    }
}

pub open spec fn tok_is(t: Seq<TokenV>, pos: int, x: TokenV) -> bool {
    0 <= pos < t.len() && t[pos] == x
}

/// Binary operators of one precedence level.
#[derive(Clone, Copy, PartialEq, Eq, Structural)]
pub enum Level {
    Cmp,
    Sum,
    Term,
}

pub open spec fn level_op(l: Level, t: TokenV) -> Option<BinaryOp> {
    match l {
        Level::Cmp => cmp_op(t),
        Level::Sum => sum_op(t),
        Level::Term => term_op(t),
    }
}

pub open spec fn level_rank(l: Level) -> nat {
    match l {
        Level::Cmp => 6,
        Level::Sum => 4,
        Level::Term => 2,
    }
}

/// An operand of level `l`: the next tighter level, or a primary.
pub open spec fn p_operand_of(t: Seq<TokenV>, pos: int, l: Level) -> Option<(ExprV, int)>
    decreases t.len() - pos, (level_rank(l) - 1) as nat,
{
    if pos < 0 || pos > t.len() {
        None
    } else {
        match l {
            Level::Cmp => p_level(t, pos, Level::Sum),
            Level::Sum => p_level(t, pos, Level::Term),
            Level::Term => p_primary(t, pos),
        }
    }
}

/// A left-associative chain of operands joined by operators of level `l`.
pub open spec fn p_level(t: Seq<TokenV>, pos: int, l: Level) -> Option<(ExprV, int)>
    decreases t.len() - pos, level_rank(l),
{
    if pos < 0 || pos > t.len() {
        None
    } else {
        match p_operand_of(t, pos, l) {
            None => None,
            Some(first) => if pos < first.1 <= t.len() { p_chain(t, first.1, l, first.0) } else { None },
        }
    }
}

/// The rest of a chain of level `l` after the operands read so far, `lhs`.
pub open spec fn p_chain(t: Seq<TokenV>, pos: int, l: Level, lhs: ExprV) -> Option<(ExprV, int)>
    decreases t.len() - pos, 0nat,
{
    if pos < 0 || pos > t.len() {
        None
    } else if pos < t.len() && level_op(l, t[pos]) is Some {
        match p_operand_of(t, pos + 1, l) {
            None => None,
            Some(rhs) => if pos + 1 < rhs.1 <= t.len() {
                p_chain(t, rhs.1, l, ExprV::Binary(Box::new(lhs), level_op(l, t[pos])->0, Box::new(rhs.0)))
            } else {
                None
            },
        }
    } else {
        Some((lhs, pos))
    }
}

/// An r-value: a full expression.
pub open spec fn p_rvalue(t: Seq<TokenV>, pos: int) -> Option<(ExprV, int)>
    decreases t.len() - pos, 7nat,
{
    if pos < 0 || pos > t.len() { None } else { p_level(t, pos, Level::Cmp) }
}

/// A primary expression with its method calls.
pub open spec fn p_primary(t: Seq<TokenV>, pos: int) -> Option<(ExprV, int)>
    decreases t.len() - pos, 0nat,
{
    if pos < 0 || pos >= t.len() {
        None
    } else {
        match t[pos] {
            TokenV::Number(s) => match number_value(s) {
                Some(v) => p_postfix(t, pos + 1, ExprV::Number(v)),
                None => None,
            },
            TokenV::Lbrack => if tok_is(t, pos + 1, TokenV::Rbrack) {
                p_postfix(t, pos + 2, ExprV::Array(Seq::empty()))
            } else {
                None
            },
            TokenV::Identifier(n) => if tok_is(t, pos + 1, TokenV::Lpar) {
                match p_args(t, pos + 2) {
                    Some(a) => if tok_is(t, a.1, TokenV::Rpar) && a.1 >= pos + 2 {
                        p_postfix(t, a.1 + 1, ExprV::Call(n, a.0))
                    } else {
                        None
                    },
                    None => None,
                }
            } else {
                p_postfix(t, pos + 1, ExprV::Variable(n))
            },
            _ => None,
        }
    }
}

/// Method calls `.m(args)` applied in turn to `obj`.
pub open spec fn p_postfix(t: Seq<TokenV>, pos: int, obj: ExprV) -> Option<(ExprV, int)>
    decreases t.len() - pos, 0nat,
{
    if pos < 0 || pos > t.len() {
        None
    } else if tok_is(t, pos, TokenV::Dot) && pos + 1 < t.len() && t[pos + 1] is Identifier
        && tok_is(t, pos + 2, TokenV::Lpar) {
        match p_args(t, pos + 3) {
            Some(a) => if tok_is(t, a.1, TokenV::Rpar) && a.1 >= pos + 3 {
                p_postfix(t, a.1 + 1, ExprV::MethodCall(Box::new(obj), t[pos + 1]->Identifier_0, a.0))
            } else {
                None
            },
            None => None,
        }
    } else {
        Some((obj, pos))
    }
}

/// Call arguments: none, or r-values separated by commas.
pub open spec fn p_args(t: Seq<TokenV>, pos: int) -> Option<(Seq<ExprV>, int)>
    decreases t.len() - pos, 8nat,
{
    if pos < 0 || pos > t.len() {
        None
    } else if tok_is(t, pos, TokenV::Rpar) {
        Some((Seq::empty(), pos))
    } else {
        match p_rvalue(t, pos) {
            None => None,
            Some(first) => if pos < first.1 <= t.len() { p_more_args(t, first.1, seq![first.0]) } else { None },
        }
    }
}

pub open spec fn p_more_args(t: Seq<TokenV>, pos: int, acc: Seq<ExprV>) -> Option<(Seq<ExprV>, int)>
    decreases t.len() - pos, 0nat,
{
    if pos < 0 || pos > t.len() {
        None
    } else if tok_is(t, pos, TokenV::Comma) {
        match p_rvalue(t, pos + 1) {
            None => None,
            Some(e) => if pos + 1 < e.1 <= t.len() { p_more_args(t, e.1, acc.push(e.0)) } else { None },
        }
    } else {
        Some((acc, pos))
    }
}

/// `r` is the executable form of the spec parse result `s`.
pub open spec fn expr_result(r: Option<(Expr, usize)>, s: Option<(ExprV, int)>) -> bool {
    match s {
        Some(x) => r matches Some(y) && y.0@ == x.0 && y.1 as int == x.1,
        None => r is None,
    }
}

pub open spec fn exprs_result(r: Option<(Vec<Expr>, usize)>, s: Option<(Seq<ExprV>, int)>) -> bool {
    match s {
        Some(x) => r matches Some(y) && exprs_view(y.0@) == x.0 && y.1 as int == x.1,
        None => r is None,
    }
}

/// Whether the token at `pos` is `x`.
fn tok_eq(tokens: &Vec<Token>, pos: usize, x: &Token) -> (r: bool)
    ensures
        r == tok_is(tokens_view(tokens@), pos as int, x@),
        r ==> pos < tokens@.len(),
        tokens@.len() <= usize::MAX,
{
    let n = tokens.len();
    pos < n && tokens[pos] == *x
}

fn level_op_of(l: Level, t: &Token) -> (r: Option<BinaryOp>)
    ensures
        r == level_op(l, t@),
{
    match (l, t) {
        (Level::Cmp, Token::Operator(Operator::LessThan)) => Some(BinaryOp::LessThan),
        (Level::Cmp, Token::Operator(Operator::GreaterThan)) => Some(BinaryOp::GreaterThan),
        (Level::Cmp, Token::Operator(Operator::LessThanOrEqual)) => Some(BinaryOp::LessThanOrEqual),
        (Level::Cmp, Token::Operator(Operator::GreaterThanOrEqual)) => Some(BinaryOp::GreaterThanOrEqual),
        (Level::Sum, Token::Operator(Operator::Plus)) => Some(BinaryOp::Add),
        (Level::Sum, Token::Operator(Operator::Minus)) => Some(BinaryOp::Sub),
        (Level::Term, Token::Operator(Operator::Mult)) => Some(BinaryOp::Mult),
        (Level::Term, Token::Operator(Operator::Div)) => Some(BinaryOp::Div),
        _ => None,
    }
}

fn parse_operand_of(tokens: &Vec<Token>, pos: usize, l: Level) -> (r: Option<(Expr, usize)>)
    requires
        pos <= tokens@.len(),
    ensures
        expr_result(r, p_operand_of(tokens_view(tokens@), pos as int, l)),
    decreases tokens@.len() - pos, (level_rank(l) - 1) as nat,
{
    match l {
        Level::Cmp => parse_level(tokens, pos, Level::Sum),
        Level::Sum => parse_level(tokens, pos, Level::Term),
        Level::Term => parse_primary(tokens, pos),
    }
}

fn parse_level(tokens: &Vec<Token>, pos: usize, l: Level) -> (r: Option<(Expr, usize)>)
    requires
        pos <= tokens@.len(),
    ensures
        expr_result(r, p_level(tokens_view(tokens@), pos as int, l)),
    decreases tokens@.len() - pos, level_rank(l),
{
    match parse_operand_of(tokens, pos, l) {
        None => None,
        Some((e, p)) => if pos < p && p <= tokens.len() { parse_chain(tokens, p, l, e) } else { None },
    }
}

fn parse_chain(tokens: &Vec<Token>, pos: usize, l: Level, lhs: Expr) -> (r: Option<(Expr, usize)>)
    requires
        pos <= tokens@.len(),
    ensures
        expr_result(r, p_chain(tokens_view(tokens@), pos as int, l, lhs@)),
    decreases tokens@.len() - pos, 0nat,
{
    if pos < tokens.len() {
        if let Some(op) = level_op_of(l, &tokens[pos]) {
            return match parse_operand_of(tokens, pos + 1, l) {
                None => None,
                Some((rhs, p)) => if pos + 1 < p && p <= tokens.len() {
                    parse_chain(tokens, p, l, Expr::Binary(Box::new(lhs), op, Box::new(rhs)))
                } else {
                    None
                },
            };
        }
    }
    Some((lhs, pos))
}

/// Parses an r-value (a full expression) at `pos`, with the position after it.
pub fn parse_rvalue(tokens: &Vec<Token>, pos: usize) -> (r: Option<(Expr, usize)>)
    requires
        pos <= tokens@.len(),
    ensures
        expr_result(r, p_rvalue(tokens_view(tokens@), pos as int)),
    decreases tokens@.len() - pos, 7nat,
{
    parse_level(tokens, pos, Level::Cmp)
}

fn parse_primary(tokens: &Vec<Token>, pos: usize) -> (r: Option<(Expr, usize)>)
    requires
        pos <= tokens@.len(),
    ensures
        expr_result(r, p_primary(tokens_view(tokens@), pos as int)),
    decreases tokens@.len() - pos, 0nat,
{
    if pos >= tokens.len() {
        return None;
    }
    match &tokens[pos] {
        Token::Number(s) => match number_of(s) {
            Some(v) => parse_postfix(tokens, pos + 1, Expr::Number(v)),
            None => None,
        },
        Token::Lbrack => if tok_eq(tokens, pos + 1, &Token::Rbrack) {
            let items: Vec<Expr> = Vec::new();
            assert(exprs_view(items@) =~= Seq::<ExprV>::empty());
            parse_postfix(tokens, pos + 2, Expr::Array(items))
        } else {
            None
        },
        Token::Identifier(n) => if tok_eq(tokens, pos + 1, &Token::Lpar) {
            match parse_args(tokens, pos + 2) {
                Some((a, p)) => if tok_eq(tokens, p, &Token::Rpar) && p >= pos + 2 {
                    parse_postfix(tokens, p + 1, Expr::Call(n.clone(), a))
                } else {
                    None
                },
                None => None,
            }
        } else {
            parse_postfix(tokens, pos + 1, Expr::Variable(n.clone()))
        },
        _ => None,
    }
}

fn parse_postfix(tokens: &Vec<Token>, pos: usize, obj: Expr) -> (r: Option<(Expr, usize)>)
    requires
        pos <= tokens@.len(),
    ensures
        expr_result(r, p_postfix(tokens_view(tokens@), pos as int, obj@)),
    decreases tokens@.len() - pos, 0nat,
{
    let dot = tok_eq(tokens, pos, &Token::Dot);
    if dot && pos + 1 < tokens.len() && tok_eq(tokens, pos + 2, &Token::Lpar) {
        if let Token::Identifier(m) = &tokens[pos + 1] {
            return match parse_args(tokens, pos + 3) {
                Some((a, p)) => if tok_eq(tokens, p, &Token::Rpar) && p >= pos + 3 {
                    parse_postfix(tokens, p + 1, Expr::MethodCall(Box::new(obj), m.clone(), a))
                } else {
                    None
                },
                None => None,
            };
        }
    }
    Some((obj, pos))
}

fn parse_args(tokens: &Vec<Token>, pos: usize) -> (r: Option<(Vec<Expr>, usize)>)
    requires
        pos <= tokens@.len(),
    ensures
        exprs_result(r, p_args(tokens_view(tokens@), pos as int)),
    decreases tokens@.len() - pos, 8nat,
{
    if tok_eq(tokens, pos, &Token::Rpar) {
        let v: Vec<Expr> = Vec::new();
        assert(exprs_view(v@) =~= Seq::<ExprV>::empty());
        return Some((v, pos));
    }
    match parse_rvalue(tokens, pos) {
        None => None,
        Some((e, p)) => if pos < p && p <= tokens.len() {
            let ghost ev = e@;
            let v = vec![e];
            proof {
                lemma_exprs_view_push(Seq::empty(), v@[0]);
                assert(v@ =~= Seq::<Expr>::empty().push(v@[0]));
                assert(exprs_view(v@) =~= seq![ev]);
            }
            parse_more_args(tokens, p, v)
        } else {
            None
        },
    }
}

fn parse_more_args(tokens: &Vec<Token>, pos: usize, acc: Vec<Expr>) -> (r: Option<(Vec<Expr>, usize)>)
    requires
        pos <= tokens@.len(),
    ensures
        exprs_result(r, p_more_args(tokens_view(tokens@), pos as int, exprs_view(acc@))),
    decreases tokens@.len() - pos, 0nat,
{
    let comma = tok_eq(tokens, pos, &Token::Comma);
    if comma {
        match parse_rvalue(tokens, pos + 1) {
            None => None,
            Some((e, p)) => if pos + 1 < p && p <= tokens.len() {
                let mut acc = acc;
                proof {
                    lemma_exprs_view_push(acc@, e);
                }
                acc.push(e);
                parse_more_args(tokens, p, acc)
            } else {
                None
            },
        }
    } else {
        Some((acc, pos))
    }
}

/// A line: one statement without its semicolon.
pub open spec fn p_line(t: Seq<TokenV>, pos: int) -> Option<(StmtV, int)>
    decreases t.len() - pos, 9nat,
{
    if pos < 0 || pos >= t.len() {
        None
    } else if t[pos] == TokenV::Keyword(Keyword::Let) {
        if pos + 1 < t.len() && t[pos + 1] is Identifier && tok_is(t, pos + 2, TokenV::Operator(Operator::Assign)) {
            match p_rvalue(t, pos + 3) {
                Some(e) => Some((StmtV::Let(t[pos + 1]->Identifier_0, e.0), e.1)),
                None => None,
            }
        } else {
            None
        }
    } else if t[pos] == TokenV::Keyword(Keyword::Return) {
        match p_rvalue(t, pos + 1) {
            Some(e) => Some((StmtV::Return(e.0), e.1)),
            None => None,
        }
    } else if t[pos] == TokenV::Keyword(Keyword::If) {
        match p_rvalue(t, pos + 1) {
            None => None,
            Some(c) => if pos < c.1 && tok_is(t, c.1, TokenV::Lcur) {
                let b = p_lines(t, c.1 + 1);
                if c.1 < b.1 && tok_is(t, b.1, TokenV::Rcur) {
                    if tok_is(t, b.1 + 1, TokenV::Keyword(Keyword::Else)) && tok_is(t, b.1 + 2, TokenV::Lcur) {
                        let e = p_lines(t, b.1 + 3);
                        if b.1 < e.1 && tok_is(t, e.1, TokenV::Rcur) {
                            Some((StmtV::IfElse(c.0, b.0, e.0), e.1 + 1))
                        } else {
                            None
                        }
                    } else {
                        Some((StmtV::If(c.0, b.0), b.1 + 1))
                    }
                } else {
                    None
                }
            } else {
                None
            },
        }
    } else if t[pos] == TokenV::Keyword(Keyword::For) {
        if tok_is(t, pos + 1, TokenV::Lpar) {
            match p_line(t, pos + 2) {
                Some(i) => if pos + 2 < i.1 && tok_is(t, i.1, TokenV::Semi) {
                    match p_rvalue(t, i.1 + 1) {
                        Some(c) => if i.1 + 1 < c.1 && tok_is(t, c.1, TokenV::Semi) {
                            match p_line(t, c.1 + 1) {
                                Some(u) => if c.1 + 1 < u.1 && tok_is(t, u.1, TokenV::Rpar) && tok_is(t, u.1 + 1, TokenV::Lcur) {
                                    let b = p_lines(t, u.1 + 2);
                                    if u.1 + 1 < b.1 && tok_is(t, b.1, TokenV::Rcur) {
                                        Some((StmtV::ForLoop(Box::new(i.0), c.0, Box::new(u.0), b.0), b.1 + 1))
                                    } else {
                                        None
                                    }
                                } else {
                                    None
                                },
                                None => None,
                            }
                        } else {
                            None
                        },
                        None => None,
                    }
                } else {
                    None
                },
                None => None,
            }
        } else {
            None
        }
    } else if t[pos] is Identifier && tok_is(t, pos + 1, TokenV::Operator(Operator::Assign)) {
        match p_rvalue(t, pos + 2) {
            Some(e) => Some((StmtV::Assignment(t[pos]->Identifier_0, e.0), e.1)),
            None => None,
        }
    } else {
        match p_rvalue(t, pos) {
            Some(e) => Some((StmtV::Expression(e.0), e.1)),
            None => None,
        }
    }
}

/// Lines, each followed by a semicolon, for as long as they parse.
pub open spec fn p_lines(t: Seq<TokenV>, pos: int) -> (Seq<StmtV>, int)
    decreases t.len() - pos, 10nat,
{
    if pos < 0 || pos > t.len() {
        (Seq::empty(), pos)
    } else {
        match p_line(t, pos) {
            Some(l) => if pos < l.1 && tok_is(t, l.1, TokenV::Semi) {
                let rest = p_lines(t, l.1 + 1);
                (seq![l.0] + rest.0, rest.1)
            } else {
                (Seq::empty(), pos)
            },
            None => (Seq::empty(), pos),
        }
    }
}

/// Parameter names after the first, each preceded by a comma.
pub open spec fn p_more_params(t: Seq<TokenV>, pos: int, acc: Seq<Seq<char>>) -> (Seq<Seq<char>>, int)
    decreases t.len() - pos,
{
    if 0 <= pos && tok_is(t, pos, TokenV::Comma) && pos + 1 < t.len() && t[pos + 1] is Identifier {
        p_more_params(t, pos + 2, acc.push(t[pos + 1]->Identifier_0))
    } else {
        (acc, pos)
    }
}

/// A parameter list: none, or names separated by commas.
pub open spec fn p_params(t: Seq<TokenV>, pos: int) -> (Seq<Seq<char>>, int) {
    if 0 <= pos < t.len() && t[pos] is Identifier {
        p_more_params(t, pos + 1, seq![t[pos]->Identifier_0])
    } else {
        (Seq::empty(), pos)
    }
}

/// A function definition, with an optional semicolon after it.
pub open spec fn p_function(t: Seq<TokenV>, pos: int) -> Option<(FunctionV, int)> {
    if 0 <= pos && tok_is(t, pos, TokenV::Keyword(Keyword::Fn)) && pos + 1 < t.len() && t[pos + 1] is Identifier
        && tok_is(t, pos + 2, TokenV::Lpar) {
        let ps = p_params(t, pos + 3);
        if tok_is(t, ps.1, TokenV::Rpar) && tok_is(t, ps.1 + 1, TokenV::Lcur) {
            let b = p_lines(t, ps.1 + 2);
            if tok_is(t, b.1, TokenV::Rcur) {
                let f = FunctionV { name: t[pos + 1]->Identifier_0, params: ps.0, body: b.0 };
                if tok_is(t, b.1 + 1, TokenV::Semi) { Some((f, b.1 + 2)) } else { Some((f, b.1 + 1)) }
            } else {
                None
            }
        } else {
            None
        }
    } else {
        None
    }
}

/// Region items for as long as they parse: functions, and lines followed by a semicolon.
pub open spec fn p_items(t: Seq<TokenV>, pos: int) -> (Seq<ItemV>, int)
    decreases t.len() - pos,
{
    if pos < 0 || pos > t.len() {
        (Seq::empty(), pos)
    } else if tok_is(t, pos, TokenV::Keyword(Keyword::Fn)) {
        match p_function(t, pos) {
            Some(f) => if pos < f.1 <= t.len() {
                let rest = p_items(t, f.1);
                (seq![ItemV::Function(f.0)] + rest.0, rest.1)
            } else {
                (Seq::empty(), pos)
            },
            None => (Seq::empty(), pos),
        }
    } else {
        match p_line(t, pos) {
            Some(l) => if pos < l.1 && tok_is(t, l.1, TokenV::Semi) {
                let rest = p_items(t, l.1 + 1);
                (seq![ItemV::Statement(l.0)] + rest.0, rest.1)
            } else {
                (Seq::empty(), pos)
            },
            None => (Seq::empty(), pos),
        }
    }
}

/// The region that a token sequence spells, if it spells one: `region`, a name,
/// and its items in braces, with nothing after.
pub open spec fn parse_region(t: Seq<TokenV>) -> Option<RegionV> {
    if tok_is(t, 0, TokenV::Keyword(Keyword::Region)) && 1 < t.len() && t[1] is Identifier && tok_is(t, 2, TokenV::Lcur) {
        let b = p_items(t, 3);
        if tok_is(t, b.1, TokenV::Rcur) && b.1 + 1 == t.len() {
            Some(RegionV { name: t[1]->Identifier_0, body: b.0 })
        } else {
            None
        }
    } else {
        None
    }
}

/// A region starting at `pos`, with the position after its closing brace.
pub open spec fn p_region(t: Seq<TokenV>, pos: int) -> Option<(RegionV, int)> {
    if 0 <= pos && tok_is(t, pos, TokenV::Keyword(Keyword::Region)) && pos + 1 < t.len() && t[pos + 1] is Identifier
        && tok_is(t, pos + 2, TokenV::Lcur) {
        let b = p_items(t, pos + 3);
        if tok_is(t, b.1, TokenV::Rcur) {
            Some((RegionV { name: t[pos + 1]->Identifier_0, body: b.0 }, b.1 + 1))
        } else {
            None
        }
    } else {
        None
    }
}

/// Regions one after another up to the end of the tokens: `Start -> region
/// Ident { Items } Start | (nothing)`.
pub open spec fn p_regions(t: Seq<TokenV>, pos: int) -> Option<Seq<RegionV>>
    decreases t.len() - pos,
{
    if pos < 0 || pos > t.len() {
        None
    } else if pos == t.len() {
        Some(Seq::empty())
    } else {
        match p_region(t, pos) {
            Some(x) => if pos < x.1 <= t.len() {
                match p_regions(t, x.1) {
                    Some(rest) => Some(seq![x.0] + rest),
                    None => None,
                }
            } else {
                None
            },
            None => None,
        }
    }
}

pub open spec fn stmt_result(r: Option<(Statement, usize)>, s: Option<(StmtV, int)>) -> bool {
    match s {
        Some(x) => r matches Some(y) && y.0@ == x.0 && y.1 as int == x.1,
        None => r is None,
    }
}

fn ident_at(tokens: &Vec<Token>, pos: usize) -> (r: Option<String>)
    ensures
        r matches Some(n) ==> pos < tokens@.len() && tokens_view(tokens@)[pos as int] == TokenV::Identifier(n@),
        r is None ==> !(pos < tokens@.len() && tokens_view(tokens@)[pos as int] is Identifier),
        tokens@.len() <= usize::MAX,
{
    if pos < tokens.len() {
        if let Token::Identifier(n) = &tokens[pos] {
            return Some(n.clone());
        }
    }
    None
}

fn parse_line(tokens: &Vec<Token>, pos: usize) -> (r: Option<(Statement, usize)>)
    requires
        pos <= tokens@.len(),
    ensures
        stmt_result(r, p_line(tokens_view(tokens@), pos as int)),
    decreases tokens@.len() - pos, 9nat,
{
    let n = tokens.len();
    if pos >= n {
        return None;
    }
    if tok_eq(tokens, pos, &Token::Keyword(Keyword::Let)) {
        if let Some(name) = ident_at(tokens, pos + 1) {
            if tok_eq(tokens, pos + 2, &Token::Operator(Operator::Assign)) {
                return match parse_rvalue(tokens, pos + 3) {
                    Some((e, p)) => Some((Statement::Let(name, Box::new(e)), p)),
                    None => None,
                };
            }
        }
        return None;
    }
    if tok_eq(tokens, pos, &Token::Keyword(Keyword::Return)) {
        return match parse_rvalue(tokens, pos + 1) {
            Some((e, p)) => Some((Statement::Return(Box::new(e)), p)),
            None => None,
        };
    }
    if tok_eq(tokens, pos, &Token::Keyword(Keyword::If)) {
        let (c, p1) = match parse_rvalue(tokens, pos + 1) {
            Some(x) => x,
            None => return None,
        };
        if !(pos < p1 && tok_eq(tokens, p1, &Token::Lcur)) {
            return None;
        }
        let (b, p2) = parse_lines(tokens, p1 + 1);
        if !(p1 < p2 && tok_eq(tokens, p2, &Token::Rcur)) {
            return None;
        }
        if p2 + 1 < n && tok_eq(tokens, p2 + 1, &Token::Keyword(Keyword::Else)) && tok_eq(tokens, p2 + 2, &Token::Lcur) {
            let (e, p3) = parse_lines(tokens, p2 + 3);
            if p2 < p3 && tok_eq(tokens, p3, &Token::Rcur) {
                return Some((Statement::IfElse(Box::new(c), b, e), p3 + 1));
            }
            return None;
        }
        return Some((Statement::If(Box::new(c), b), p2 + 1));
    }
    if tok_eq(tokens, pos, &Token::Keyword(Keyword::For)) {
        if !tok_eq(tokens, pos + 1, &Token::Lpar) {
            return None;
        }
        let (init, p1) = match parse_line(tokens, pos + 2) {
            Some(x) => x,
            None => return None,
        };
        if !(pos + 2 < p1 && tok_eq(tokens, p1, &Token::Semi)) {
            return None;
        }
        let (cond, p2) = match parse_rvalue(tokens, p1 + 1) {
            Some(x) => x,
            None => return None,
        };
        if !(p1 + 1 < p2 && tok_eq(tokens, p2, &Token::Semi)) {
            return None;
        }
        let (update, p3) = match parse_line(tokens, p2 + 1) {
            Some(x) => x,
            None => return None,
        };
        if !(p2 + 1 < p3 && tok_eq(tokens, p3, &Token::Rpar) && tok_eq(tokens, p3 + 1, &Token::Lcur)) {
            return None;
        }
        let (b, p4) = parse_lines(tokens, p3 + 2);
        if !(p3 + 1 < p4 && tok_eq(tokens, p4, &Token::Rcur)) {
            return None;
        }
        return Some((Statement::ForLoop(Box::new(init), Box::new(cond), Box::new(update), b), p4 + 1));
    }
    if let Some(name) = ident_at(tokens, pos) {
        if tok_eq(tokens, pos + 1, &Token::Operator(Operator::Assign)) {
            return match parse_rvalue(tokens, pos + 2) {
                Some((e, p)) => Some((Statement::Assignment(name, Box::new(e)), p)),
                None => None,
            };
        }
    }
    match parse_rvalue(tokens, pos) {
        Some((e, p)) => Some((Statement::Expression(Box::new(e)), p)),
        None => None,
    }
}

fn parse_lines(tokens: &Vec<Token>, pos: usize) -> (r: (Vec<Statement>, usize))
    requires
        pos <= tokens@.len(),
    ensures
        stmts_view(r.0@) == p_lines(tokens_view(tokens@), pos as int).0,
        r.1 as int == p_lines(tokens_view(tokens@), pos as int).1,
    decreases tokens@.len() - pos, 10nat,
{
    let none: Vec<Statement> = Vec::new();
    assert(stmts_view(none@) =~= Seq::<StmtV>::empty());
    match parse_line(tokens, pos) {
        Some((l, p)) => if pos < p && tok_eq(tokens, p, &Token::Semi) {
            let (rest, q) = parse_lines(tokens, p + 1);
            let mut out: Vec<Statement> = Vec::new();
            proof {
                lemma_stmts_view_push(out@, l);
            }
            out.push(l);
            crate::licm::append_stmts(&mut out, rest);
            (out, q)
        } else {
            (none, pos)
        },
        None => (none, pos),
    }
}

fn parse_params(tokens: &Vec<Token>, pos: usize) -> (r: (Vec<Variable>, usize))
    requires
        pos <= tokens@.len(),
    ensures
        param_names(r.0@) == p_params(tokens_view(tokens@), pos as int).0,
        r.1 as int == p_params(tokens_view(tokens@), pos as int).1,
        r.1 <= tokens@.len(),
{
    let mut out: Vec<Variable> = Vec::new();
    let first = match ident_at(tokens, pos) {
        Some(n) => n,
        None => {
            assert(param_names(out@) =~= Seq::<Seq<char>>::empty());
            return (out, pos);
        },
    };
    out.push(Variable { name: first, var_type: Type::Int32 });
    let ghost t = tokens_view(tokens@);
    assert(param_names(out@) =~= seq![t[pos as int]->Identifier_0]);
    let mut p: usize = pos + 1;
    while tok_eq(tokens, p, &Token::Comma) && p + 1 < tokens.len()
        invariant
            t == tokens_view(tokens@),
            tokens@.len() <= usize::MAX,
            pos < p <= tokens@.len(),
            p_params(t, pos as int) == p_more_params(t, p as int, param_names(out@)),
        decreases tokens@.len() - p,
    {
        match ident_at(tokens, p + 1) {
            Some(n) => {
                let ghost before = param_names(out@);
                out.push(Variable { name: n, var_type: Type::Int32 });
                assert(param_names(out@) =~= before.push(t[p + 1]->Identifier_0));
                p = p + 2;
            },
            None => return (out, p),
        }
    }
    (out, p)
}

fn parse_function(tokens: &Vec<Token>, pos: usize) -> (r: Option<(Function, usize)>)
    requires
        pos <= tokens@.len(),
    ensures
        match p_function(tokens_view(tokens@), pos as int) {
            Some(x) => r matches Some(y) && y.0@ == x.0 && y.1 as int == x.1,
            None => r is None,
        },
{
    if !tok_eq(tokens, pos, &Token::Keyword(Keyword::Fn)) {
        return None;
    }
    let name = match ident_at(tokens, pos + 1) {
        Some(n) => n,
        None => return None,
    };
    if !tok_eq(tokens, pos + 2, &Token::Lpar) {
        return None;
    }
    let (params, p1) = parse_params(tokens, pos + 3);
    if !(tok_eq(tokens, p1, &Token::Rpar) && tok_eq(tokens, p1 + 1, &Token::Lcur)) {
        return None;
    }
    let (body, p2) = parse_lines(tokens, p1 + 2);
    if !tok_eq(tokens, p2, &Token::Rcur) {
        return None;
    }
    let f = Function { name, params, body };
    if p2 + 1 < tokens.len() && tok_eq(tokens, p2 + 1, &Token::Semi) {
        Some((f, p2 + 2))
    } else {
        Some((f, p2 + 1))
    }
}

fn parse_items(tokens: &Vec<Token>, pos: usize) -> (r: (Vec<RegionItem>, usize))
    requires
        pos <= tokens@.len(),
    ensures
        items_view(r.0@) == p_items(tokens_view(tokens@), pos as int).0,
        r.1 as int == p_items(tokens_view(tokens@), pos as int).1,
    decreases tokens@.len() - pos,
{
    let none: Vec<RegionItem> = Vec::new();
    assert(items_view(none@) =~= Seq::<ItemV>::empty());
    let item = if tok_eq(tokens, pos, &Token::Keyword(Keyword::Fn)) {
        match parse_function(tokens, pos) {
            Some((f, p)) => if pos < p && p <= tokens.len() { Some((RegionItem::Function(f), p)) } else { None },
            None => None,
        }
    } else {
        match parse_line(tokens, pos) {
            Some((l, p)) => if pos < p && tok_eq(tokens, p, &Token::Semi) {
                Some((RegionItem::Statement(l), p + 1))
            } else {
                None
            },
            None => None,
        }
    };
    match item {
        None => (none, pos),
        Some((it, p)) => {
            let (rest, q) = parse_items(tokens, p);
            let ghost itv = it@;
            let mut out: Vec<RegionItem> = vec![it];
            let mut i: usize = 0;
            while i < rest.len()
                invariant
                    i <= rest@.len(),
                    out@.len() == 1 + i,
                    out@[0]@ == itv,
                    forall|j: int| 0 <= j < i ==> (#[trigger] out@[1 + j])@ == rest@[j]@,
                decreases rest@.len() - i,
            {
                out.push(rest[i].copy());
                i = i + 1;
            }
            assert(items_view(out@) =~= seq![itv] + items_view(rest@)) by {
                assert forall|j: int| 1 <= j < out@.len() implies out@[j]@ == rest@[j - 1]@ by {
                    assert(out@[1 + (j - 1)]@ == rest@[j - 1]@);
                }
            }
            (out, q)
        },
    }
}

/// Parsing is a function of the token sequence alone: token sequences with
/// the same tokens parse to the same regions, or both fail.
pub proof fn lemma_parse_deterministic(a: Vec<Token>, b: Vec<Token>)
    requires
        tokens_view(a@) == tokens_view(b@),
    ensures
        p_regions(tokens_view(a@), 0) == p_regions(tokens_view(b@), 0),
        parse_region(tokens_view(a@)) == parse_region(tokens_view(b@)),
{
}

/// Parses a token sequence that spells exactly one region; fails with `Failed
/// to parse tokens` where it does not.
pub fn parse_single_region(tokens: &Vec<Token>) -> (r: Result<Region, String>)
    ensures
        match parse_region(tokens_view(tokens@)) {
            Some(region) => r matches Ok(x) && x@ == region,
            None => r matches Err(e) && e@ == "Failed to parse tokens"@,
        },
{
    let fail = String::from_str("Failed to parse tokens");
    if !(tok_eq(tokens, 0, &Token::Keyword(Keyword::Region)) && tok_eq(tokens, 2, &Token::Lcur)) {
        return Err(fail);
    }
    let name = match ident_at(tokens, 1) {
        Some(n) => n,
        None => return Err(fail),
    };
    let (body, p) = parse_items(tokens, 3);
    if tok_eq(tokens, p, &Token::Rcur) && p + 1 == tokens.len() {
        Ok(Region { name, body })
    } else {
        Err(fail)
    }
}

fn parse_region_at(tokens: &Vec<Token>, pos: usize) -> (r: Option<(Region, usize)>)
    requires
        pos <= tokens@.len(),
    ensures
        match p_region(tokens_view(tokens@), pos as int) {
            Some(x) => r matches Some(y) && y.0@ == x.0 && y.1 as int == x.1,
            None => r is None,
        },
{
    if !(tok_eq(tokens, pos, &Token::Keyword(Keyword::Region)) && pos + 1 < tokens.len()
        && tok_eq(tokens, pos + 2, &Token::Lcur)) {
        return None;
    }
    let name = match ident_at(tokens, pos + 1) {
        Some(n) => n,
        None => return None,
    };
    let (body, p) = parse_items(tokens, pos + 3);
    if tok_eq(tokens, p, &Token::Rcur) {
        Some((Region { name, body }, p + 1))
    } else {
        None
    }
}

/// Parses a whole program: any number of regions, one after another, up to the
/// end of the tokens; no tokens at all is an empty program. Fails with `Failed
/// to parse tokens` where the tokens spell no such sequence.
pub fn parse(tokens: &Vec<Token>) -> (r: Result<Vec<Region>, String>)
    ensures
        match p_regions(tokens_view(tokens@), 0) {
            Some(rs) => r matches Ok(v) && v@.map_values(|x: Region| x@) == rs,
            None => r matches Err(e) && e@ == "Failed to parse tokens"@,
        },
{
    let ghost t = tokens_view(tokens@);
    let mut out: Vec<Region> = Vec::new();
    let mut pos: usize = 0;
    let n = tokens.len();
    assert(out@.map_values(|x: Region| x@) + Seq::<RegionV>::empty() =~= Seq::<RegionV>::empty());
    while pos < n
        invariant
            n == tokens@.len(),
            t == tokens_view(tokens@),
            pos <= n,
            p_regions(t, 0) == match p_regions(t, pos as int) {
                Some(rest) => Some(out@.map_values(|x: Region| x@) + rest),
                None => None::<Seq<RegionV>>,
            },
        decreases n - pos,
    {
        match parse_region_at(tokens, pos) {
            Some((region, q)) => {
                if !(pos < q && q <= n) {
                    return Err(String::from_str("Failed to parse tokens"));
                }
                let ghost before = out@.map_values(|x: Region| x@);
                let ghost rv = region@;
                out.push(region);
                proof {
                    assert(out@.map_values(|x: Region| x@) =~= before.push(rv));
                    assert forall|rest: Seq<RegionV>| #![auto] before + (seq![rv] + rest) == before.push(rv) + rest by {
                        assert(before + (seq![rv] + rest) =~= before.push(rv) + rest);
                    }
                }
                pos = q;
            },
            None => return Err(String::from_str("Failed to parse tokens")),
        }
    }
    assert(out@.map_values(|x: Region| x@) + Seq::<RegionV>::empty() =~= out@.map_values(|x: Region| x@));
    Ok(out)
}

} // verus!
