use fiasto::errors::ParseError;
use fiasto::lex_formula;
use fiasto::lexer::{tokenize, Token};
use fiasto::parser::Parser;
use fiasto::text::{decimal_string, parse_decimal};

#[test]
fn keywords_win_only_on_exact_match() {
    let toks = tokenize("poly polyx c c1 gr").unwrap();
    let kinds: Vec<Token> = toks.iter().map(|(t, _)| *t).collect();
    assert_eq!(
        kinds,
        vec![Token::Poly, Token::ColumnName, Token::C, Token::ColumnName, Token::Gr]
    );
    assert_eq!(toks[1].1, "polyx");
}

#[test]
fn digits_split_as_the_grammar_expects() {
    let toks = tokenize("10 12 25").unwrap();
    let kinds: Vec<(Token, &str)> = toks.clone();
    assert_eq!(
        kinds,
        vec![
            (Token::One, "1"),
            (Token::Zero, "0"),
            (Token::One, "1"),
            (Token::Integer, "2"),
            (Token::Integer, "25"),
        ]
    );
}

#[test]
fn bars_and_strings() {
    let toks = tokenize("| || \"a b\"").unwrap();
    assert_eq!(
        toks,
        vec![(Token::Pipe, "|"), (Token::DoublePipe, "||"), (Token::StringLiteral, "\"a b\"")]
    );
}

#[test]
fn unterminated_string_fails() {
    match tokenize("y ~ \"abc") {
        Err(ParseError::Lex(s)) => assert_eq!(s, "\"abc"),
        _ => panic!("expected a lexing error"),
    }
}

#[test]
fn whitespace_of_all_kinds_is_skipped() {
    let toks = tokenize("\ty\n~\x0c x ").unwrap();
    assert_eq!(toks.len(), 3);
}

#[test]
fn lex_formula_reports_names_and_lexemes() {
    let v = lex_formula("mpg ~ wt*hp - 1").unwrap();
    let pairs: Vec<(&str, &str)> = v.iter().map(|t| (t.token.as_str(), t.lexeme.as_str())).collect();
    assert_eq!(
        pairs,
        vec![
            ("ColumnName", "mpg"),
            ("Tilde", "~"),
            ("ColumnName", "wt"),
            ("InteractionAndEffect", "*"),
            ("ColumnName", "hp"),
            ("Minus", "-"),
            ("One", "1"),
        ]
    );
    assert!(matches!(lex_formula("a ? b"), Err(ParseError::Lex(_))));
}

#[test]
fn decimals_round_trip() {
    assert_eq!(parse_decimal("4294967295"), Some(4294967295));
    assert_eq!(parse_decimal("4294967296"), None);
    assert_eq!(parse_decimal(""), None);
    assert_eq!(parse_decimal("12a"), None);
    assert_eq!(decimal_string(0), "0");
    assert_eq!(decimal_string(907), "907");
}

#[test]
fn error_messages() {
    assert_eq!(ParseError::Eoi.message(), "unexpected end of input");
    assert_eq!(ParseError::Lex("\"x".to_string()).message(), "lexing error at \"\\\"x\"");
    assert_eq!(
        ParseError::Unexpected { expected: "~", found: Some(Token::ColumnName) }.message(),
        "unexpected token: expected \"~\", found Some(ColumnName)"
    );
    assert_eq!(
        ParseError::Unexpected { expected: "~", found: None }.message(),
        "unexpected token: expected \"~\", found None"
    );
    assert_eq!(ParseError::Syntax("bad".to_string()).message(), "invalid syntax: bad");
}

#[test]
fn pretty_error_marks_the_failing_token() {
    let mut p = Parser::new("y ~ x +").unwrap();
    let e = p.parse_formula().unwrap_err();
    let text = p.pretty_error(&e);
    assert_eq!(
        text,
        "\x1b[1m\x1b[31mSyntax error- Unexpected Token\x1b[39m\x1b[0m\n\
         Formula: y ~ x +\n\
         Show: \x1b[32my\x1b[39m \x1b[32m~\x1b[39m \x1b[31mx\x1b[39m\n\
         Expected Token: Function token or ColumnName\n"
    );
    let plain = p.pretty_error(&ParseError::Syntax("oops".to_string()));
    assert_eq!(plain, "\x1b[1m\x1b[31mSyntax error\x1b[39m\x1b[0m\n\noops\n");
}
