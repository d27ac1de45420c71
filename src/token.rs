use vstd::prelude::*;
use vstd::string::*;

use crate::text::push_text;

verus! {

/// The reserved words of the language.
#[derive(Debug, Clone, Copy, PartialEq, Eq, Structural, Hash)]
pub enum Keyword {
    Region,
    Let,
    Fn,
    Function,
    Return,
    If,
    Else,
    For,
}

/// The operator symbols of the language.
#[derive(Debug, Clone, Copy, PartialEq, Eq, Structural, Hash)]
pub enum Operator {
    Plus,
    Minus,
    Mult,
    Div,
    Assign,
    LessThan,
    GreaterThan,
    LessThanOrEqual,
    GreaterThanOrEqual,
}

/// A lexical token. Identifiers and numbers keep their source text.
#[derive(Debug, Clone)]
pub enum Token {
    Identifier(String),
    Number(String),
    Keyword(Keyword),
    Operator(Operator),
    Lcur,
    Rcur,
    Lpar,
    Rpar,
    Semi,
    Comma,
    Dot,
    Lbrack,
    Rbrack,
}

/// The mathematical model of a token: its texts as character sequences.
pub enum TokenV {
    Identifier(Seq<char>),
    Number(Seq<char>),
    Keyword(Keyword),
    Operator(Operator),
    Lcur,
    Rcur,
    Lpar,
    Rpar,
    Semi,
    Comma,
    Dot,
    Lbrack,
    Rbrack,
}

impl View for Token {
    type V = TokenV;

    open spec fn view(&self) -> TokenV {
        match self {
            Token::Identifier(s) => TokenV::Identifier(s@),
            Token::Number(s) => TokenV::Number(s@),
            Token::Keyword(k) => TokenV::Keyword(*k),
            Token::Operator(o) => TokenV::Operator(*o),
            Token::Lcur => TokenV::Lcur,
            Token::Rcur => TokenV::Rcur,
            Token::Lpar => TokenV::Lpar,
            Token::Rpar => TokenV::Rpar,
            Token::Semi => TokenV::Semi,
            Token::Comma => TokenV::Comma,
            Token::Dot => TokenV::Dot,
            Token::Lbrack => TokenV::Lbrack,
            Token::Rbrack => TokenV::Rbrack,
        }
    }
}

impl PartialEq for Token {
    fn eq(&self, o: &Token) -> (r: bool)
        ensures
            r == (self@ == o@),
    {
        match (self, o) {
            (Token::Identifier(a), Token::Identifier(b)) => *a == *b,
            (Token::Number(a), Token::Number(b)) => *a == *b,
            (Token::Keyword(a), Token::Keyword(b)) => *a == *b,
            (Token::Operator(a), Token::Operator(b)) => *a == *b,
            (Token::Lcur, Token::Lcur) => true,
            (Token::Rcur, Token::Rcur) => true,
            (Token::Lpar, Token::Lpar) => true,
            (Token::Rpar, Token::Rpar) => true,
            (Token::Semi, Token::Semi) => true,
            (Token::Comma, Token::Comma) => true,
            (Token::Dot, Token::Dot) => true,
            (Token::Lbrack, Token::Lbrack) => true,
            (Token::Rbrack, Token::Rbrack) => true,
            _ => false,
        }
    }
}

impl vstd::std_specs::cmp::PartialEqSpecImpl for Token {
    open spec fn obeys_eq_spec() -> bool {
        true
    }

    open spec fn eq_spec(&self, o: &Token) -> bool {
        self@ == o@
    }
}

/// The spelling of a keyword.
pub open spec fn keyword_text(k: Keyword) -> Seq<char> {
    match k {
        Keyword::Region => "region"@,
        Keyword::Let => "let"@,
        Keyword::Fn => "fn"@,
        Keyword::Function => "function"@,
        Keyword::Return => "return"@,
        Keyword::If => "if"@,
        Keyword::Else => "else"@,
        Keyword::For => "for"@,
    }
}

/// The spelling of an operator.
pub open spec fn operator_text(o: Operator) -> Seq<char> {
    match o {
        Operator::Plus => "+"@,
        Operator::Minus => "-"@,
        Operator::Mult => "*"@,
        Operator::Div => "/"@,
        Operator::Assign => "="@,
        Operator::LessThan => "<"@,
        Operator::GreaterThan => ">"@,
        Operator::LessThanOrEqual => "<="@,
        Operator::GreaterThanOrEqual => ">="@,
    }
}

/// The keyword spelled `s`, if any.
pub open spec fn keyword_of(s: Seq<char>) -> Option<Keyword> {
    if s == keyword_text(Keyword::Region) { Some(Keyword::Region) }
    else if s == keyword_text(Keyword::Let) { Some(Keyword::Let) }
    else if s == keyword_text(Keyword::Fn) { Some(Keyword::Fn) }
    else if s == keyword_text(Keyword::Function) { Some(Keyword::Function) }
    else if s == keyword_text(Keyword::Return) { Some(Keyword::Return) }
    else if s == keyword_text(Keyword::If) { Some(Keyword::If) }
    else if s == keyword_text(Keyword::Else) { Some(Keyword::Else) }
    else if s == keyword_text(Keyword::For) { Some(Keyword::For) }
    else { None }
}

/// The operator spelled `s`, if any.
pub open spec fn operator_of(s: Seq<char>) -> Option<Operator> {
    if s == operator_text(Operator::Plus) { Some(Operator::Plus) }
    else if s == operator_text(Operator::Minus) { Some(Operator::Minus) }
    else if s == operator_text(Operator::Mult) { Some(Operator::Mult) }
    else if s == operator_text(Operator::Div) { Some(Operator::Div) }
    else if s == operator_text(Operator::Assign) { Some(Operator::Assign) }
    else if s == operator_text(Operator::LessThan) { Some(Operator::LessThan) }
    else if s == operator_text(Operator::GreaterThan) { Some(Operator::GreaterThan) }
    else if s == operator_text(Operator::LessThanOrEqual) { Some(Operator::LessThanOrEqual) }
    else if s == operator_text(Operator::GreaterThanOrEqual) { Some(Operator::GreaterThanOrEqual) }
    else { None }
}

impl Keyword {
    /// The spelling of this keyword.
    pub fn text(&self) -> (r: &'static str)
        ensures
            r@ == keyword_text(*self),
    {
        match self {
            Keyword::Region => "region",
            Keyword::Let => "let",
            Keyword::Fn => "fn",
            Keyword::Function => "function",
            Keyword::Return => "return",
            Keyword::If => "if",
            Keyword::Else => "else",
            Keyword::For => "for",
        }
    }
}

impl Operator {
    /// The spelling of this operator.
    pub fn text(&self) -> (r: &'static str)
        ensures
            r@ == operator_text(*self),
    {
        match self {
            Operator::Plus => "+",
            Operator::Minus => "-",
            Operator::Mult => "*",
            Operator::Div => "/",
            Operator::Assign => "=",
            Operator::LessThan => "<",
            Operator::GreaterThan => ">",
            Operator::LessThanOrEqual => "<=",
            Operator::GreaterThanOrEqual => ">=",
        }
    }
}

/// Where a token stands in the source.
#[derive(Debug, Clone)]
pub struct TokenContext {
    pub line: usize,
    pub column: usize,
    pub line_content: String,
    pub filename: String,
}

/// A token together with where it stands in the source.
#[derive(Debug, Clone)]
pub struct TextToken {
    pub token: Token,
    pub context: TokenContext,
}

/// The `<Kind, text>` form in which a token is listed.
pub open spec fn token_listing(t: TokenV) -> Seq<char> {
    match t {
        TokenV::Identifier(v) => "<Identifier, "@ + v + ">"@,
        TokenV::Number(v) => "<Number, "@ + v + ">"@,
        TokenV::Keyword(k) => "<Keyword, "@ + keyword_text(k) + ">"@,
        TokenV::Operator(o) => "<Operator, "@ + operator_text(o) + ">"@,
        TokenV::Lcur => "<Lcur, {>"@,
        TokenV::Rcur => "<Rcur, }>"@,
        TokenV::Lpar => "<Lpar, (>"@,
        TokenV::Rpar => "<Rpar, )>"@,
        TokenV::Semi => "<Semi, ;>"@,
        TokenV::Comma => "<Comma, ,>"@,
        TokenV::Dot => "<Dot, .>"@,
        TokenV::Lbrack => "<Lbrack, [>"@,
        TokenV::Rbrack => "<Rbrack, ]>"@,
    }
}

impl Token {
    /// The token listed as `<Kind, text>`.
    pub fn fmt_type_and_value(&self) -> (r: String)
        ensures
            r@ == token_listing(self@),
    {
        match self {
            Token::Identifier(v) => {
                let mut r = String::from_str("<Identifier, ");
                push_text(&mut r, v.as_str());
                push_text(&mut r, ">");
                r
            },
            Token::Number(v) => {
                let mut r = String::from_str("<Number, ");
                push_text(&mut r, v.as_str());
                push_text(&mut r, ">");
                r
            },
            Token::Keyword(k) => {
                let mut r = String::from_str("<Keyword, ");
                push_text(&mut r, k.text());
                push_text(&mut r, ">");
                r
            },
            Token::Operator(o) => {
                let mut r = String::from_str("<Operator, ");
                push_text(&mut r, o.text());
                push_text(&mut r, ">");
                r
            },
            Token::Lcur => String::from_str("<Lcur, {>"),
            Token::Rcur => String::from_str("<Rcur, }>"),
            Token::Lpar => String::from_str("<Lpar, (>"),
            Token::Rpar => String::from_str("<Rpar, )>"),
            Token::Semi => String::from_str("<Semi, ;>"),
            Token::Comma => String::from_str("<Comma, ,>"),
            Token::Dot => String::from_str("<Dot, .>"),
            Token::Lbrack => String::from_str("<Lbrack, [>"),
            Token::Rbrack => String::from_str("<Rbrack, ]>"),
        }
    }

    /// The name of an identifier token.
    pub fn as_ident(&self) -> (r: String)
        requires
            self is Identifier,
        ensures
            r@ == self->Identifier_0@,
    {
        match self {
            Token::Identifier(s) => s.clone(),
            _ => String::new(),
        }
    }

    /// The text of an identifier or number token.
    pub fn as_value(&self) -> (r: String)
        requires
            self is Identifier || self is Number,
        ensures
            self is Identifier ==> r@ == self->Identifier_0@,
            self is Number ==> r@ == self->Number_0@,
    {
        match self {
            Token::Identifier(s) => s.clone(),
            Token::Number(s) => s.clone(),
            _ => String::new(),
        }
    }
}

} // verus!
