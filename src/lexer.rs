use vstd::prelude::*;
use vstd::string::*;

use crate::text::{chars_of, push_char, push_string, push_text, push_usize, nat_digits};
use crate::token::{keyword_of, keyword_text, operator_of, operator_text, Keyword, Operator, TextToken, Token, TokenContext, TokenV};

verus! {

/// Whether `c` has the Unicode Alphabetic property.
pub uninterp spec fn alphabetic(c: char) -> bool;

/// Whether `c` is alphabetic or numeric in the Unicode sense.
pub uninterp spec fn alphanumeric(c: char) -> bool;

/// Whether `c` has the Unicode White_Space property.
pub uninterp spec fn unicode_white_space(c: char) -> bool;

/// Whitespace: space, tab, newline and carriage return among others.
pub open spec fn whitespace(c: char) -> bool {
    c == ' ' || c == '\t' || c == '\n' || c == '\r' || unicode_white_space(c)
}

/// Relies on `char::is_alphabetic`.
#[verifier::external_body]
fn is_alphabetic(c: char) -> (r: bool)
    ensures
        r == alphabetic(c),
{
    c.is_alphabetic()
}

/// Relies on `char::is_alphanumeric`.
#[verifier::external_body]
fn is_alphanumeric(c: char) -> (r: bool)
    ensures
        r == alphanumeric(c),
{
    c.is_alphanumeric()
}

/// Relies on `char::is_whitespace`: the White_Space property, which space,
/// tab, newline and carriage return have.
#[verifier::external_body]
fn is_whitespace(c: char) -> (r: bool)
    ensures
        r == whitespace(c),
        r == (c == ' ' || c == '\t' || c == '\n' || c == '\r' || unicode_white_space(c)),
{
    c.is_whitespace()
}

pub open spec fn is_digit(c: char) -> bool {
    '0' <= c && c <= '9'
}

/// The Unicode classes of one character that the automaton reads.
#[derive(Debug, Clone, Copy, PartialEq, Eq, Structural)]
pub struct CharClass {
    pub alphabetic: bool,
    pub alphanumeric: bool,
    pub whitespace: bool,
}

/// The classes of `c`.
pub open spec fn class_of(c: char) -> CharClass {
    CharClass { alphabetic: alphabetic(c), alphanumeric: alphanumeric(c), whitespace: whitespace(c) }
}

/// Characters that may begin an identifier.
pub open spec fn starts_identifier(c: char, k: CharClass) -> bool {
    k.alphabetic || c == '_'
}

/// Characters that may continue an identifier.
pub open spec fn continues_identifier(c: char, k: CharClass) -> bool {
    k.alphanumeric || c == '_'
}

/// The one-character punctuation token written `c`, if any.
pub open spec fn special_token(c: char) -> Option<TokenV> {
    if c == '{' { Some(TokenV::Lcur) }
    else if c == '}' { Some(TokenV::Rcur) }
    else if c == '(' { Some(TokenV::Lpar) }
    else if c == ')' { Some(TokenV::Rpar) }
    else if c == ';' { Some(TokenV::Semi) }
    else if c == ',' { Some(TokenV::Comma) }
    else if c == '.' { Some(TokenV::Dot) }
    else if c == '[' { Some(TokenV::Lbrack) }
    else if c == ']' { Some(TokenV::Rbrack) }
    else { None }
}

/// Characters that always end the token being read, given their classes.
pub open spec fn separator_with(c: char, k: CharClass) -> bool {
    k.whitespace || special_token(c) is Some
}

/// Characters that always end the token being read.
pub open spec fn is_separator(c: char) -> bool {
    separator_with(c, class_of(c))
}

/// The token that a word followed by `c` forms, where the word stays one token.
pub open spec fn word_extended_with(w: Seq<char>, c: char, k: CharClass) -> Option<TokenV> {
    match keyword_of(w.push(c)) {
        Some(kw) => Some(TokenV::Keyword(kw)),
        None => if continues_identifier(c, k) { Some(TokenV::Identifier(w.push(c))) } else { None },
    }
}

pub open spec fn word_extended(w: Seq<char>, c: char) -> Option<TokenV> {
    word_extended_with(w, c, class_of(c))
}

/// The token that the accepted token `t` becomes with the next character `c`
/// of classes `k`, or `None` where `c` cannot extend it (maximal munch).
pub open spec fn extend_with(t: TokenV, c: char, k: CharClass) -> Option<TokenV> {
    match t {
        TokenV::Identifier(s) => word_extended_with(s, c, k),
        TokenV::Keyword(kw) => word_extended_with(keyword_text(kw), c, k),
        TokenV::Operator(o) => match operator_of(operator_text(o).push(c)) {
            Some(p) => Some(TokenV::Operator(p)),
            None => if o == Operator::Minus && is_digit(c) {
                Some(TokenV::Number(seq!['-', c]))
            } else {
                None
            },
        },
        TokenV::Number(s) => if is_digit(c) { Some(TokenV::Number(s.push(c))) } else { None },
        _ => None,
    }
}

pub open spec fn extend(t: TokenV, c: char) -> Option<TokenV> {
    extend_with(t, c, class_of(c))
}

/// The token that a character of classes `k` begins, from the start state.
pub open spec fn begin_with(c: char, k: CharClass) -> Option<TokenV> {
    match operator_of(seq![c]) {
        Some(o) => Some(TokenV::Operator(o)),
        None => if starts_identifier(c, k) {
            Some(TokenV::Identifier(seq![c]))
        } else if is_digit(c) {
            Some(TokenV::Number(seq![c]))
        } else {
            None
        },
    }
}

pub open spec fn begin(c: char) -> Option<TokenV> {
    begin_with(c, class_of(c))
}

/// Tokens emitted so far, with the token being accepted appended.
pub open spec fn flushed(toks: Seq<TokenV>, cur: Option<TokenV>) -> Seq<TokenV> {
    match cur {
        Some(t) => toks.push(t),
        None => toks,
    }
}

/// One step of the automaton on a character of classes `k`: the emitted
/// tokens and the accepted token after reading `c`, or `None` where `c` begins
/// no token.
pub open spec fn lex_step_with(toks: Seq<TokenV>, cur: Option<TokenV>, c: char, k: CharClass) -> Option<(Seq<TokenV>, Option<TokenV>)> {
    if separator_with(c, k) {
        match special_token(c) {
            Some(s) => Some((flushed(toks, cur).push(s), None)),
            None => Some((flushed(toks, cur), None)),
        }
    } else if cur is Some && extend_with(cur->0, c, k) is Some {
        Some((toks, extend_with(cur->0, c, k)))
    } else if begin_with(c, k) is Some {
        Some((flushed(toks, cur), begin_with(c, k)))
    } else {
        None
    }
}

/// One step of the automaton on `c`.
pub open spec fn lex_step(toks: Seq<TokenV>, cur: Option<TokenV>, c: char) -> Option<(Seq<TokenV>, Option<TokenV>)> {
    lex_step_with(toks, cur, c, class_of(c))
}

/// The automaton run over a prefix of the input: the emitted tokens and the
/// accepted token, or the index of the first character that begins no token.
pub open spec fn lex_prefix(chars: Seq<char>) -> Result<(Seq<TokenV>, Option<TokenV>), nat>
    decreases chars.len(),
{
    if chars.len() == 0 {
        Ok((Seq::empty(), None))
    } else {
        match lex_prefix(chars.drop_last()) {
            Err(i) => Err(i),
            Ok(st) => match lex_step(st.0, st.1, chars.last()) {
                Some(next) => Ok(next),
                None => Err((chars.len() - 1) as nat),
            },
        }
    }
}

/// The token sequence of a whole input, or the index of the offending character.
pub open spec fn lex(chars: Seq<char>) -> Result<Seq<TokenV>, nat> {
    match lex_prefix(chars) {
        Err(i) => Err(i),
        Ok(st) => Ok(flushed(st.0, st.1)),
    }
}

/// Where the tokens of a prefix begin: the index of the first character of
/// each emitted token, and of the accepted token.
pub open spec fn lex_starts(chars: Seq<char>) -> (Seq<nat>, nat)
    decreases chars.len(),
{
    if chars.len() == 0 {
        (Seq::empty(), 0)
    } else {
        let pre = chars.drop_last();
        let c = chars.last();
        let i = (chars.len() - 1) as nat;
        let p = lex_starts(pre);
        let cur = match lex_prefix(pre) {
            Ok(st) => st.1,
            Err(_) => None,
        };
        let fl = if cur is Some { p.0.push(p.1) } else { p.0 };
        if is_separator(c) {
            (if special_token(c) is Some { fl.push(i) } else { fl }, 0)
        } else if cur is Some && extend(cur->0, c) is Some {
            p
        } else {
            (fl, i)
        }
    }
}

/// The index of the first character of each token of an input.
pub open spec fn token_starts(chars: Seq<char>) -> Seq<nat> {
    let p = lex_starts(chars);
    match lex_prefix(chars) {
        Ok(st) => if st.1 is Some { p.0.push(p.1) } else { p.0 },
        Err(_) => p.0,
    }
}

pub open spec fn starts_view(v: Seq<usize>) -> Seq<nat> {
    v.map_values(|x: usize| x as nat)
}

/// Line and column (both from 1) of the character that follows `prefix`.
pub open spec fn position(prefix: Seq<char>) -> (nat, nat)
    decreases prefix.len(),
{
    if prefix.len() == 0 {
        (1, 1)
    } else {
        let p = position(prefix.drop_last());
        if prefix.last() == '\n' { (p.0 + 1, 1) } else { (p.0, p.1 + 1) }
    }
}

/// The message reported when the character at index `i` begins no token.
pub open spec fn lex_error_message(filename: Seq<char>, chars: Seq<char>, i: nat) -> Seq<char> {
    let p = position(chars.subrange(0, i as int));
    "Error parsing file "@ + filename + ":"@ + nat_digits(p.0) + ":"@ + nat_digits(p.1)
        + " while parsing token: "@ + seq![chars[i as int]]
}

/// The models of a list of tokens.
pub open spec fn tokens_view(v: Seq<Token>) -> Seq<TokenV> {
    v.map_values(|t: Token| t@)
}

proof fn lemma_position_bound(prefix: Seq<char>)
    ensures
        position(prefix).0 >= 1,
        position(prefix).1 >= 1,
        position(prefix).0 + position(prefix).1 <= prefix.len() + 2,
    decreases prefix.len(),
{
    if prefix.len() > 0 {
        lemma_position_bound(prefix.drop_last());
    }
}

/// The state of the tokeniser automaton between characters.
#[derive(Debug, Clone)]
pub enum TokeniserState {
    /// No character of the current token has been read.
    Start,
    /// The characters read do not begin any token.
    Error(String),
    /// The characters read form this token, which more characters may extend.
    Accepting(Token),
}

/// The tokeniser: a deterministic automaton with maximal munch.
pub struct Tokeniser;

fn text_is(s: &String, t: &str) -> (r: bool)
    ensures
        r == (s@ == t@),
{
    *s == String::from_str(t)
}

fn extended_word(w: &String, c: char) -> (r: String)
    ensures
        r@ == w@.push(c),
{
    let mut r = w.clone();
    push_char(&mut r, c);
    r
}

fn word_step(w: &String, c: char, k: CharClass) -> (r: Option<Token>)
    ensures
        r matches Some(t) ==> word_extended_with(w@, c, k) == Some(t@),
        r is None ==> word_extended_with(w@, c, k) is None,
{
    let full = extended_word(w, c);
    match Tokeniser::is_keyword(&full) {
        Some(kw) => Some(Token::Keyword(kw)),
        None => if k.alphanumeric || c == '_' { Some(Token::Identifier(full)) } else { None },
    }
}

impl Tokeniser {
    /// The keyword spelled `s`, if any.
    fn is_keyword(s: &String) -> (r: Option<Keyword>)
        ensures
            r == keyword_of(s@),
    {
        if text_is(s, "region") { Some(Keyword::Region) }
        else if text_is(s, "let") { Some(Keyword::Let) }
        else if text_is(s, "fn") { Some(Keyword::Fn) }
        else if text_is(s, "function") { Some(Keyword::Function) }
        else if text_is(s, "return") { Some(Keyword::Return) }
        else if text_is(s, "if") { Some(Keyword::If) }
        else if text_is(s, "else") { Some(Keyword::Else) }
        else if text_is(s, "for") { Some(Keyword::For) }
        else { None }
    }

    /// The operator spelled `s`, if any.
    fn is_operator(s: &String) -> (r: Option<Operator>)
        ensures
            r == operator_of(s@),
    {
        if text_is(s, "+") { Some(Operator::Plus) }
        else if text_is(s, "-") { Some(Operator::Minus) }
        else if text_is(s, "*") { Some(Operator::Mult) }
        else if text_is(s, "/") { Some(Operator::Div) }
        else if text_is(s, "=") { Some(Operator::Assign) }
        else if text_is(s, "<") { Some(Operator::LessThan) }
        else if text_is(s, ">") { Some(Operator::GreaterThan) }
        else if text_is(s, "<=") { Some(Operator::LessThanOrEqual) }
        else if text_is(s, ">=") { Some(Operator::GreaterThanOrEqual) }
        else { None }
    }

    /// The punctuation token written `c`, if any.
    fn is_special_token(c: char) -> (r: Option<Token>)
        ensures
            r matches Some(t) ==> special_token(c) == Some(t@),
            r is None ==> special_token(c) is None,
    {
        if c == '{' { Some(Token::Lcur) }
        else if c == '}' { Some(Token::Rcur) }
        else if c == '(' { Some(Token::Lpar) }
        else if c == ')' { Some(Token::Rpar) }
        else if c == ';' { Some(Token::Semi) }
        else if c == ',' { Some(Token::Comma) }
        else if c == '.' { Some(Token::Dot) }
        else if c == '[' { Some(Token::Lbrack) }
        else if c == ']' { Some(Token::Rbrack) }
        else { None }
    }

    /// The classes of `c`.
    pub fn class_of_char(c: char) -> (k: CharClass)
        ensures
            k == class_of(c),
    {
        CharClass { alphabetic: is_alphabetic(c), alphanumeric: is_alphanumeric(c), whitespace: is_whitespace(c) }
    }

    /// Whether `c`, of classes `k`, ends the token being read.
    fn is_token_separator(c: char, k: CharClass) -> (r: bool)
        ensures
            r == separator_with(c, k),
    {
        k.whitespace || Self::is_special_token(c).is_some()
    }

    /// The token that begins with `c`, from the start state.
    fn begin_token(c: char, k: CharClass) -> (r: Option<Token>)
        ensures
            r matches Some(t) ==> begin_with(c, k) == Some(t@),
            r is None ==> begin_with(c, k) is None,
    {
        let mut s = String::new();
        push_char(&mut s, c);
        assert(s@ =~= seq![c]);
        match Self::is_operator(&s) {
            Some(o) => Some(Token::Operator(o)),
            None => if k.alphabetic || c == '_' {
                Some(Token::Identifier(s))
            } else if '0' <= c && c <= '9' {
                Some(Token::Number(s))
            } else {
                None
            },
        }
    }

    /// The token that the accepted token `t` becomes with `c`, if `c` extends it.
    fn extend_token(t: &Token, c: char, k: CharClass) -> (r: Option<Token>)
        ensures
            r matches Some(u) ==> extend_with(t@, c, k) == Some(u@),
            r is None ==> extend_with(t@, c, k) is None,
    {
        match t {
            Token::Identifier(s) => word_step(s, c, k),
            Token::Keyword(kw) => word_step(&String::from_str(kw.text()), c, k),
            Token::Operator(o) => {
                let full = extended_word(&String::from_str(o.text()), c);
                match Self::is_operator(&full) {
                    Some(p) => Some(Token::Operator(p)),
                    None => if *o == Operator::Minus && '0' <= c && c <= '9' {
                        let mut n = String::from_str("-");
                        push_char(&mut n, c);
                        proof {
                            reveal_strlit("-");
                        }
                        assert(n@ =~= seq!['-', c]);
                        Some(Token::Number(n))
                    } else {
                        None
                    },
                }
            },
            Token::Number(s) => if '0' <= c && c <= '9' {
                Some(Token::Number(extended_word(s, c)))
            } else {
                None
            },
            _ => None,
        }
    }

    /// The transition function for a character `c` of classes `k` that is no
    /// separator: the state after `c`, and the token that `c` ended, if any. An
    /// error state takes the character into its partial text.
    pub fn delta(state: TokeniserState, c: char, k: CharClass) -> (r: (Option<Token>, TokeniserState))
        ensures
            state matches TokeniserState::Error(e) ==> (r.0 is None && (r.1 matches TokeniserState::Error(e2)
                && e2@ == e@.push(c))),
            !(state is Error) ==> ({
                let cur = accepted(state);
                if cur is Some && extend_with(cur->0, c, k) is Some {
                    &&& r.0 is None
                    &&& r.1 matches TokeniserState::Accepting(t) && extend_with(cur->0, c, k) == Some(t@)
                } else if begin_with(c, k) is Some {
                    &&& r.0 matches Some(t) ==> cur == Some(t@)
                    &&& r.0 is None ==> cur is None
                    &&& r.1 matches TokeniserState::Accepting(t) && begin_with(c, k) == Some(t@)
                } else {
                    &&& r.0 matches Some(t) ==> cur == Some(t@)
                    &&& r.0 is None ==> cur is None
                    &&& r.1 matches TokeniserState::Error(e) && e@ == seq![c]
                }
            }),
    {
        let mut first = String::new();
        push_char(&mut first, c);
        match state {
            TokeniserState::Accepting(t) => {
                match Self::extend_token(&t, c, k) {
                    Some(u) => (None, TokeniserState::Accepting(u)),
                    None => match Self::begin_token(c, k) {
                        Some(u) => (Some(t), TokeniserState::Accepting(u)),
                        None => (Some(t), TokeniserState::Error(first)),
                    },
                }
            },
            TokeniserState::Error(e) => {
                let mut more = e;
                push_char(&mut more, c);
                (None, TokeniserState::Error(more))
            },
            TokeniserState::Start => match Self::begin_token(c, k) {
                Some(u) => (None, TokeniserState::Accepting(u)),
                None => (None, TokeniserState::Error(first)),
            },
        }
    }

    /// One step of the automaton on a character `c` of classes `k`: the tokens
    /// that `c` completes, in order, and the state after it. A separator ends
    /// the accepted token and, where it is punctuation, is a token itself.
    pub fn step(state: TokeniserState, c: char, k: CharClass) -> (r: (Vec<Token>, TokeniserState))
        ensures
            state matches TokeniserState::Error(e) ==> (r.0@.len() == 0 && (r.1 matches TokeniserState::Error(e2)
                && e2@ == e@.push(c))),
            !(state is Error) ==> match lex_step_with(Seq::empty(), accepted(state), c, k) {
                Some(next) => tokens_view(r.0@) == next.0 && !(r.1 is Error) && accepted(r.1) == next.1,
                None => r.0@.len() == 0 && (r.1 matches TokeniserState::Error(e) && e@ == seq![c]),
            },
    {
        let mut out: Vec<Token> = Vec::new();
        let in_error = matches!(state, TokeniserState::Error(_));
        if !in_error && Self::is_token_separator(c, k) {
            let ghost cur = accepted(state);
            if let TokeniserState::Accepting(t) = state {
                out.push(t);
            }
            assert(tokens_view(out@) =~= flushed(Seq::empty(), cur));
            if let Some(t) = Self::is_special_token(c) {
                out.push(t);
                assert(tokens_view(out@) =~= flushed(Seq::empty(), cur).push(t@));
            }
            return (out, TokeniserState::Start);
        }
        let (emitted, next) = Self::delta(state, c, k);
        if let TokeniserState::Error(e) = next {
            return (out, TokeniserState::Error(e));
        }
        if let Some(t) = emitted {
            out.push(t);
            assert(tokens_view(out@) =~= seq![t@]);
        } else {
            assert(tokens_view(out@) =~= Seq::<TokenV>::empty());
        }
        (out, next)
    }

    /// Tokenises source text. On a character that begins no token the result is
    /// the message `Error parsing file <filename>:<line>:<column> while parsing
    /// token: <c>`, with the line and column of that character.
    pub fn tokenise(filename: &str, s: &str) -> (r: Result<Vec<Token>, String>)
        requires
            s@.len() < usize::MAX,
        ensures
            match lex(s@) {
                Ok(ts) => r matches Ok(v) && tokens_view(v@) == ts,
                Err(i) => r matches Err(m) && m@ == lex_error_message(filename@, s@, i),
            },
    {
        match Self::tokenise_with_starts(filename, s) {
            Ok((tokens, _)) => Ok(tokens),
            Err(m) => Err(m),
        }
    }

    /// Tokenises source text as `tokenise` does, with the index of the first
    /// character of each token.
    fn tokenise_with_starts(filename: &str, s: &str) -> (r: Result<(Vec<Token>, Vec<usize>), String>)
        requires
            s@.len() < usize::MAX,
        ensures
            match lex(s@) {
                Ok(ts) => r matches Ok(v) && tokens_view(v.0@) == ts && starts_view(v.1@) == token_starts(s@)
                    && v.1@.len() == v.0@.len() && forall|j: int| 0 <= j < v.1@.len() ==> #[trigger] v.1@[j] <= s@.len(),
                Err(i) => r matches Err(m) && m@ == lex_error_message(filename@, s@, i),
            },
    {
        let chars = chars_of(s);
        let mut starts: Vec<usize> = Vec::new();
        let mut cur_start: usize = 0;
        let mut tokens: Vec<Token> = Vec::new();
        let mut state = TokeniserState::Start;
        let mut line: usize = 1;
        let mut col: usize = 1;
        let mut i: usize = 0;
        assert(chars@.subrange(0, 0) =~= Seq::<char>::empty());
        assert(tokens_view(tokens@) =~= Seq::<TokenV>::empty());
        assert(starts_view(starts@) =~= Seq::<nat>::empty());
        while i < chars.len()
            invariant
                chars@ == s@,
                chars@.len() < usize::MAX,
                i <= chars@.len(),
                !(state is Error),
                lex_starts(chars@.subrange(0, i as int)) == (starts_view(starts@), cur_start as nat),
                cur_start <= i,
                starts@.len() == tokens@.len(),
                forall|j: int| 0 <= j < starts@.len() ==> #[trigger] starts@[j] <= i,
                lex_prefix(chars@.subrange(0, i as int)) == Ok::<(Seq<TokenV>, Option<TokenV>), nat>(
                    (tokens_view(tokens@), accepted(state))),
                position(chars@.subrange(0, i as int)) == (line as nat, col as nat),
            decreases chars@.len() - i,
        {
            let c = chars[i];
            let ghost pre = chars@.subrange(0, i as int);
            let ghost toks0 = tokens_view(tokens@);
            let ghost cur0 = accepted(state);
            proof {
                let p1 = chars@.subrange(0, i as int + 1);
                assert(p1.drop_last() =~= pre);
                assert(p1.last() == c);
                lemma_position_bound(p1);
            }
            let k = Self::class_of_char(c);
            let sep = Self::is_token_separator(c, k);
            let special = Self::is_special_token(c).is_some();
            let was_accepting = matches!(state, TokeniserState::Accepting(_));
            let (emitted, next) = Self::step(state, c, k);
            if let TokeniserState::Error(e) = next {
                let mut m = String::from_str("Error parsing file ");
                push_text(&mut m, filename);
                push_text(&mut m, ":");
                push_usize(&mut m, line);
                push_text(&mut m, ":");
                push_usize(&mut m, col);
                push_text(&mut m, " while parsing token: ");
                push_string(&mut m, &e);
                proof {
                    lemma_step_frame(toks0, cur0, c, k);
                    assert(chars@.subrange(0, i as int + 1).drop_last() =~= pre);
                    assert(lex_prefix(chars@.subrange(0, i as int + 1)) is Err);
                    lemma_prefix_error(chars@, i as nat);
                    assert(m@ =~= lex_error_message(filename@, s@, i as nat));
                }
                return Err(m);
            }
            proof {
                lemma_step_frame(toks0, cur0, c, k);
            }
            let mut j: usize = 0;
            while j < emitted.len()
                invariant
                    j <= emitted@.len(),
                    tokens_view(tokens@) == toks0 + tokens_view(emitted@.subrange(0, j as int)),
                decreases emitted@.len() - j,
            {
                let t = emitted[j].clone_token();
                let ghost before = tokens_view(tokens@);
                proof {
                    assert(emitted@.subrange(0, j as int + 1) =~= emitted@.subrange(0, j as int).push(emitted@[j as int]));
                    assert(tokens_view(emitted@.subrange(0, j as int + 1))
                        =~= tokens_view(emitted@.subrange(0, j as int)).push(emitted@[j as int]@));
                }
                tokens.push(t);
                assert(tokens_view(tokens@) =~= before.push(t@));
                j = j + 1;
                assert(tokens_view(tokens@) =~= toks0 + tokens_view(emitted@.subrange(0, j as int)));
            }
            assert(emitted@.subrange(0, j as int) =~= emitted@);
            let ghost st0 = starts_view(starts@);
            let ghost cs0 = cur_start as nat;
            if sep {
                if was_accepting {
                    starts.push(cur_start);
                }
                if special {
                    starts.push(i);
                }
                cur_start = 0;
            } else if emitted.len() == 1 {
                starts.push(cur_start);
                cur_start = i;
            } else if !was_accepting {
                cur_start = i;
            }
            proof {
                let p1 = chars@.subrange(0, i as int + 1);
                assert(p1.drop_last() =~= pre);
                let fl = if cur0 is Some { st0.push(cs0) } else { st0 };
                if sep {
                    if was_accepting && special {
                        assert(starts_view(starts@) =~= st0.push(cs0).push(i as nat));
                    } else if was_accepting {
                        assert(starts_view(starts@) =~= st0.push(cs0));
                    } else if special {
                        assert(starts_view(starts@) =~= st0.push(i as nat));
                    } else {
                        assert(starts_view(starts@) =~= st0);
                    }
                } else if emitted.len() == 1 {
                    assert(starts_view(starts@) =~= st0.push(cs0));
                } else {
                    assert(starts_view(starts@) =~= st0);
                }
                assert(lex_starts(p1) == (starts_view(starts@), cur_start as nat));
            }
            state = next;
            if c == '\n' {
                line = line + 1;
                col = 1;
            } else {
                col = col + 1;
            }
            i = i + 1;
        }
        assert(chars@.subrange(0, i as int) =~= s@);
        if let TokeniserState::Accepting(t) = state {
            let ghost toks0 = tokens_view(tokens@);
            let ghost st0 = starts_view(starts@);
            tokens.push(t);
            starts.push(cur_start);
            assert(tokens_view(tokens@) =~= toks0.push(t@));
            assert(starts_view(starts@) =~= st0.push(cur_start as nat));
        }
        Ok((tokens, starts))
    }
}

/// A step's emitted tokens do not depend on those emitted before it.
proof fn lemma_step_frame(toks: Seq<TokenV>, cur: Option<TokenV>, c: char, k: CharClass)
    ensures
        match lex_step_with(Seq::empty(), cur, c, k) {
            Some(next) => lex_step_with(toks, cur, c, k) == Some((toks + next.0, next.1)),
            None => lex_step_with(toks, cur, c, k) is None,
        },
{
    let e = Seq::<TokenV>::empty();
    assert(flushed(toks, cur) =~= toks + flushed(e, cur));
    assert(toks =~= toks + e);
    match special_token(c) {
        Some(sp) => {
            assert(flushed(toks, cur).push(sp) =~= toks + flushed(e, cur).push(sp));
        },
        None => {},
    }
}

/// The token that the automaton holds in `state`, if any.
pub open spec fn accepted(state: TokeniserState) -> Option<TokenV> {
    match state {
        TokeniserState::Accepting(t) => Some(t@),
        _ => None,
    }
}

/// Once a prefix fails, the whole input fails at the same character.
proof fn lemma_prefix_error(chars: Seq<char>, i: nat)
    requires
        i < chars.len(),
        lex_prefix(chars.subrange(0, i as int + 1)) == Err::<(Seq<TokenV>, Option<TokenV>), nat>(i),
    ensures
        lex(chars) == Err::<Seq<TokenV>, nat>(i),
    decreases chars.len() - i,
{
    if i + 1 < chars.len() {
        let p = chars.subrange(0, i as int + 2);
        assert(p.drop_last() =~= chars.subrange(0, i as int + 1));
        lemma_prefix_error_step(chars, i, (i + 1) as nat);
    } else {
        assert(chars.subrange(0, i as int + 1) =~= chars);
    }
}

proof fn lemma_prefix_error_step(chars: Seq<char>, i: nat, j: nat)
    requires
        i < j <= chars.len(),
        lex_prefix(chars.subrange(0, j as int)) == Err::<(Seq<TokenV>, Option<TokenV>), nat>(i),
    ensures
        lex(chars) == Err::<Seq<TokenV>, nat>(i),
    decreases chars.len() - j,
{
    if j < chars.len() {
        let p = chars.subrange(0, j as int + 1);
        assert(p.drop_last() =~= chars.subrange(0, j as int));
        lemma_prefix_error_step(chars, i, (j + 1) as nat);
    } else {
        assert(chars.subrange(0, j as int) =~= chars);
    }
}

impl TokenContext {
    /// A copy of the position record.
    pub fn copy(&self) -> (r: TokenContext)
        ensures
            r.line == self.line,
            r.column == self.column,
            r.line_content@ == self.line_content@,
            r.filename@ == self.filename@,
    {
        TokenContext {
            line: self.line,
            column: self.column,
            line_content: self.line_content.clone(),
            filename: self.filename.clone(),
        }
    }
}

impl Token {
    /// A copy of the token.
    pub fn clone_token(&self) -> (r: Token)
        ensures
            r@ == self@,
    {
        match self {
            Token::Identifier(s) => Token::Identifier(s.clone()),
            Token::Number(s) => Token::Number(s.clone()),
            Token::Keyword(k) => Token::Keyword(*k),
            Token::Operator(o) => Token::Operator(*o),
            Token::Lcur => Token::Lcur,
            Token::Rcur => Token::Rcur,
            Token::Lpar => Token::Lpar,
            Token::Rpar => Token::Rpar,
            Token::Semi => Token::Semi,
            Token::Comma => Token::Comma,
            Token::Dot => Token::Dot,
            Token::Lbrack => Token::Lbrack,
            Token::Rbrack => Token::Rbrack,
        }
    }

    /// Tokenises one line of source; every token carries the line's position
    /// record, with the column where the token begins. Fails as
    /// `Tokeniser::tokenise` does on the line's text.
    pub fn tokenise_line(context: TokenContext) -> (r: Result<Vec<TextToken>, String>)
        requires
            context.line_content@.len() < usize::MAX,
            context.column + context.line_content@.len() <= usize::MAX,
        ensures
            match lex(context.line_content@) {
                Ok(ts) => r matches Ok(v) && v@.len() == ts.len() && forall|i: int| 0 <= i < ts.len() ==> {
                    &&& (#[trigger] v@[i]).token@ == ts[i]
                    &&& v@[i].context.line == context.line
                    &&& v@[i].context.column == context.column + token_starts(context.line_content@)[i]
                    &&& v@[i].context.line_content@ == context.line_content@
                    &&& v@[i].context.filename@ == context.filename@
                },
                Err(k) => r matches Err(m) && m@ == lex_error_message(context.filename@, context.line_content@, k),
            },
    {
        let (tokens, starts) = match Tokeniser::tokenise_with_starts(context.filename.as_str(), context.line_content.as_str()) {
            Ok(t) => t,
            Err(m) => return Err(m),
        };
        let ghost ts = tokens_view(tokens@);
        let ghost ss = token_starts(context.line_content@);
        let mut out: Vec<TextToken> = Vec::new();
        let mut i: usize = 0;
        while i < tokens.len()
            invariant
                i <= tokens@.len(),
                ts == tokens_view(tokens@),
                starts@.len() == tokens@.len(),
                ss == starts_view(starts@),
                forall|j: int| 0 <= j < starts@.len() ==> #[trigger] starts@[j] <= context.line_content@.len(),
                context.column + context.line_content@.len() <= usize::MAX,
                out@.len() == i,
                forall|j: int| 0 <= j < i ==> {
                    &&& (#[trigger] out@[j]).token@ == ts[j]
                    &&& out@[j].context.line == context.line
                    &&& out@[j].context.column == context.column + ss[j]
                    &&& out@[j].context.line_content@ == context.line_content@
                    &&& out@[j].context.filename@ == context.filename@
                },
            decreases tokens@.len() - i,
        {
            let mut ctx = context.copy();
            ctx.column = context.column + starts[i];
            out.push(TextToken { token: tokens[i].clone_token(), context: ctx });
            i = i + 1;
        }
        Ok(out)
    }
}

} // verus!
