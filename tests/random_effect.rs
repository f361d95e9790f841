use fiasto::ast::{CorrelationType, Grouping, RandomTerm};
use fiasto::lexer::Token;
use fiasto::random_effect::parse_random_effect;

#[test]
fn test_parse_simple_random_effect() {
    let tokens = vec![
        (Token::FunctionStart, "("),
        (Token::One, "1"),
        (Token::Pipe, "|"),
        (Token::ColumnName, "group"),
        (Token::FunctionEnd, ")"),
    ];
    let mut pos: usize = 0;

    let result = parse_random_effect(&tokens, &mut pos);
    assert!(result.is_ok());
    let random_effect = result.unwrap();
    assert_eq!(random_effect.terms.len(), 1);
    assert!(matches!(random_effect.terms[0], RandomTerm::Column(ref name) if name == "1"));
    assert!(matches!(random_effect.grouping, Grouping::Simple(ref name) if name == "group"));
    assert!(matches!(
        random_effect.correlation,
        CorrelationType::Correlated
    ));
}

#[test]
fn test_parse_uncorrelated_random_effect() {
    let tokens = vec![
        (Token::FunctionStart, "("),
        (Token::ColumnName, "x"),
        (Token::DoublePipe, "||"),
        (Token::ColumnName, "group"),
        (Token::FunctionEnd, ")"),
    ];
    let mut pos: usize = 0;

    let result = parse_random_effect(&tokens, &mut pos);
    assert!(result.is_ok());
    let random_effect = result.unwrap();
    assert_eq!(random_effect.terms.len(), 1);
    assert!(matches!(random_effect.terms[0], RandomTerm::Column(ref name) if name == "x"));
    assert!(matches!(
        random_effect.correlation,
        CorrelationType::Uncorrelated
    ));
}

#[test]
fn test_parse_gr_grouping() {
    let tokens = vec![
        (Token::FunctionStart, "("),
        (Token::One, "1"),
        (Token::Pipe, "|"),
        (Token::Gr, "gr"),
        (Token::FunctionStart, "("),
        (Token::ColumnName, "group"),
        (Token::Comma, ","),
        (Token::Cor, "cor"),
        (Token::Equal, "="),
        (Token::False, "false"),
        (Token::FunctionEnd, ")"),
        (Token::FunctionEnd, ")"),
    ];
    let mut pos: usize = 0;

    let result = parse_random_effect(&tokens, &mut pos);
    assert!(result.is_ok());
    let random_effect = result.unwrap();
    assert!(
        matches!(random_effect.grouping, Grouping::Gr { ref group, ref options } if group == "group" && options.len() == 1)
    );
}

