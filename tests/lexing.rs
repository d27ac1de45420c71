use regionc::TokeniserState::{Accepting, Error, Start};
use regionc::{decimal_text, strip_comments, Keyword, Operator, Token, TokenContext, Tokeniser};

fn ident(s: &str) -> Token {
    Token::Identifier(s.to_string())
}

fn num(s: &str) -> Token {
    Token::Number(s.to_string())
}

fn surface(t: &Token) -> String {
    match t {
        Token::Identifier(s) | Token::Number(s) => s.clone(),
        Token::Keyword(k) => k.text().to_string(),
        Token::Operator(o) => o.text().to_string(),
        Token::Lcur => "{".to_string(),
        Token::Rcur => "}".to_string(),
        Token::Lpar => "(".to_string(),
        Token::Rpar => ")".to_string(),
        Token::Semi => ";".to_string(),
        Token::Comma => ",".to_string(),
        Token::Dot => ".".to_string(),
        Token::Lbrack => "[".to_string(),
        Token::Rbrack => "]".to_string(),
    }
}

#[test]
fn lex_let_statement() {
    let toks = Tokeniser::tokenise("f", "let a = 1 + 0;").unwrap();
    assert_eq!(
        toks,
        vec![
            Token::Keyword(Keyword::Let),
            ident("a"),
            Token::Operator(Operator::Assign),
            num("1"),
            Token::Operator(Operator::Plus),
            num("0"),
            Token::Semi,
        ]
    );
}

#[test]
fn lex_without_spaces_splits_at_boundaries() {
    let toks = Tokeniser::tokenise("f", "acc=acc+a*b;").unwrap();
    assert_eq!(
        toks,
        vec![
            ident("acc"),
            Token::Operator(Operator::Assign),
            ident("acc"),
            Token::Operator(Operator::Plus),
            ident("a"),
            Token::Operator(Operator::Mult),
            ident("b"),
            Token::Semi,
        ]
    );
}

#[test]
fn lex_longest_operator_wins() {
    let toks = Tokeniser::tokenise("f", "a<=b >= c < d").unwrap();
    assert_eq!(
        toks,
        vec![
            ident("a"),
            Token::Operator(Operator::LessThanOrEqual),
            ident("b"),
            Token::Operator(Operator::GreaterThanOrEqual),
            ident("c"),
            Token::Operator(Operator::LessThan),
            ident("d"),
        ]
    );
}

#[test]
fn lex_minus_digit_is_a_number() {
    let toks = Tokeniser::tokenise("f", "-12 - 3").unwrap();
    assert_eq!(toks, vec![num("-12"), Token::Operator(Operator::Minus), num("3")]);
}

#[test]
fn lex_keywords_and_identifiers() {
    let toks = Tokeniser::tokenise("f", "lets fn fnx function region if else for return x1 _y").unwrap();
    assert_eq!(
        toks,
        vec![
            ident("lets"),
            Token::Keyword(Keyword::Fn),
            ident("fnx"),
            Token::Keyword(Keyword::Function),
            Token::Keyword(Keyword::Region),
            Token::Keyword(Keyword::If),
            Token::Keyword(Keyword::Else),
            Token::Keyword(Keyword::For),
            Token::Keyword(Keyword::Return),
            ident("x1"),
            ident("_y"),
        ]
    );
}

#[test]
fn lex_unicode_letters_and_whitespace() {
    let toks = Tokeniser::tokenise("f", "héllo\tb\nc").unwrap();
    assert_eq!(toks, vec![ident("héllo"), ident("b"), ident("c")]);
}

#[test]
fn lex_punctuation() {
    let toks = Tokeniser::tokenise("f", "{}();,.[]").unwrap();
    assert_eq!(
        toks,
        vec![
            Token::Lcur,
            Token::Rcur,
            Token::Lpar,
            Token::Rpar,
            Token::Semi,
            Token::Comma,
            Token::Dot,
            Token::Lbrack,
            Token::Rbrack,
        ]
    );
}

#[test]
fn lex_empty_input() {
    assert_eq!(Tokeniser::tokenise("f", "").unwrap(), vec![]);
    assert_eq!(Tokeniser::tokenise("f", "  \n ").unwrap(), vec![]);
}

#[test]
fn lex_error_reports_position() {
    let e = Tokeniser::tokenise("prog.rg", "let a = 1 # 2").unwrap_err();
    assert_eq!(e, "Error parsing file prog.rg:1:11 while parsing token: #");
    let e = Tokeniser::tokenise("p", "a\n  $").unwrap_err();
    assert_eq!(e, "Error parsing file p:2:3 while parsing token: $");
}

#[test]
fn lex_round_trip_with_spaces() {
    let src = "region R { fn main(x) { let a = x+1; for (let i=0; i<=10; i = i + 1) { a = a*-2; }; return a.borrow(1, 2); }; }";
    let toks = Tokeniser::tokenise("f", src).unwrap();
    let joined = toks.iter().map(surface).collect::<Vec<_>>().join(" ");
    let again = Tokeniser::tokenise("f", &joined).unwrap();
    assert_eq!(toks, again);
}

#[test]
fn token_listing_form() {
    assert_eq!(ident("x").fmt_type_and_value(), "<Identifier, x>");
    assert_eq!(num("-3").fmt_type_and_value(), "<Number, -3>");
    assert_eq!(Token::Keyword(Keyword::Let).fmt_type_and_value(), "<Keyword, let>");
    assert_eq!(Token::Operator(Operator::GreaterThanOrEqual).fmt_type_and_value(), "<Operator, >=>");
    assert_eq!(Token::Lcur.fmt_type_and_value(), "<Lcur, {>");
    assert_eq!(Token::Rbrack.fmt_type_and_value(), "<Rbrack, ]>");
}

#[test]
fn token_texts() {
    assert_eq!(ident("abc").as_ident(), "abc");
    assert_eq!(num("42").as_value(), "42");
    assert_eq!(ident("q").as_value(), "q");
}

#[test]
fn tokenise_line_carries_context() {
    let ctx = TokenContext { line: 3, column: 1, line_content: "let x = 2;".to_string(), filename: "m.rg".to_string() };
    let toks = Token::tokenise_line(ctx).unwrap();
    assert_eq!(toks.len(), 5);
    assert_eq!(toks[1].token, ident("x"));
    assert_eq!(toks[4].context.line, 3);
    let columns: Vec<usize> = toks.iter().map(|t| t.context.column).collect();
    assert_eq!(columns, vec![1, 5, 7, 9, 10]);
    assert_eq!(toks[4].context.filename, "m.rg");
    let bad = TokenContext { line: 1, column: 1, line_content: "@".to_string(), filename: "m.rg".to_string() };
    assert_eq!(Token::tokenise_line(bad).unwrap_err(), "Error parsing file m.rg:1:1 while parsing token: @");
}

#[test]
fn comments_are_stripped_per_line() {
    assert_eq!(strip_comments("let a = 1; // one\n// all\nlet b = 2;"), "let a = 1; \n\nlet b = 2;");
    assert_eq!(strip_comments("a / b"), "a / b");
    assert_eq!(strip_comments(""), "");
}

#[test]
fn decimal_texts() {
    assert_eq!(decimal_text(0), "0");
    assert_eq!(decimal_text(-42), "-42");
    assert_eq!(decimal_text(1234567), "1234567");
    assert_eq!(decimal_text(i64::MIN), "-9223372036854775808");
}

const PLAIN: regionc::CharClass = regionc::CharClass { alphabetic: false, alphanumeric: false, whitespace: false };
const LETTER: regionc::CharClass = regionc::CharClass { alphabetic: true, alphanumeric: true, whitespace: false };
const SPACE: regionc::CharClass = regionc::CharClass { alphabetic: false, alphanumeric: false, whitespace: true };

fn accepting(s: regionc::TokeniserState) -> Token {
    match s {
        regionc::TokeniserState::Accepting(t) => t,
        other => panic!("not accepting: {:?}", other),
    }
}

#[test]
fn delta_extends_and_restarts() {
    let lt = Token::Operator(Operator::LessThan);
    assert_eq!(accepting(Tokeniser::delta(Accepting(lt), '=', PLAIN).1), Token::Operator(Operator::LessThanOrEqual));
    assert_eq!(accepting(Tokeniser::delta(Accepting(Token::Operator(Operator::Minus)), '1', PLAIN).1), num("-1"));
    assert_eq!(accepting(Tokeniser::delta(Accepting(ident("le")), 't', LETTER).1), Token::Keyword(Keyword::Let));
    assert_eq!(accepting(Tokeniser::delta(Accepting(Token::Keyword(Keyword::Let)), 's', LETTER).1), ident("lets"));
    let (emitted, next) = Tokeniser::delta(Accepting(ident("a")), '+', PLAIN);
    assert_eq!(emitted, Some(ident("a")));
    assert_eq!(accepting(next), Token::Operator(Operator::Plus));
    match Tokeniser::delta(Start, '#', PLAIN) {
        (None, Error(e)) => assert_eq!(e, "#"),
        other => panic!("unexpected {:?}", other),
    }
    match Tokeniser::delta(Error("#".to_string()), 'x', LETTER) {
        (None, Error(e)) => assert_eq!(e, "#x"),
        other => panic!("unexpected {:?}", other),
    }
}

#[test]
fn step_emits_at_separators() {
    let (out, next) = Tokeniser::step(Accepting(ident("ab")), ';', PLAIN);
    assert_eq!(out, vec![ident("ab"), Token::Semi]);
    assert!(matches!(next, Start));
    let (out, next) = Tokeniser::step(Accepting(num("4")), ' ', SPACE);
    assert_eq!(out, vec![num("4")]);
    assert!(matches!(next, Start));
    let (out, next) = Tokeniser::step(Start, 'q', LETTER);
    assert!(out.is_empty());
    assert_eq!(accepting(next), ident("q"));
    assert_eq!(Tokeniser::class_of_char('é'), LETTER);
    assert_eq!(Tokeniser::class_of_char('\t'), SPACE);
}
