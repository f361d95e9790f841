use fiasto::cursor::{expect, next, peek};
use fiasto::errors::ParseError;
use fiasto::lexer::Token;

#[test]
fn test_expect_success() {
    let tokens = vec![
        (Token::ColumnName, "y"),
        (Token::Tilde, "~")
    ];
    let mut pos: usize = 0;
    
    let result = expect(&tokens, &mut pos, |t| matches!(t, Token::ColumnName), "ColumnName");
    assert!(result.is_ok());
    let (token, slice) = result.unwrap();
    assert_eq!(token, Token::ColumnName);
    assert_eq!(slice, "y");
    assert_eq!(pos, 1); // Position advanced
}

#[test]
fn test_expect_failure_wrong_token() {
    let tokens = vec![
        (Token::Tilde, "~"),
        (Token::ColumnName, "y")
    ];
    let mut pos: usize = 0;
    
    let result = expect(&tokens, &mut pos, |t| matches!(t, Token::ColumnName), "ColumnName");
    assert!(result.is_err());
    
    if let ParseError::Unexpected { expected, found } = result.unwrap_err() {
        assert_eq!(expected, "ColumnName");
        assert_eq!(found, Some(Token::Tilde));
    } else {
        panic!("Expected ParseError::Unexpected");
    }
    
    assert_eq!(pos, 0); // Position unchanged
}

#[test]
fn test_expect_failure_end_of_input() {
    let tokens = vec![
        (Token::ColumnName, "y")
    ];
    let mut pos: usize = 1; // At end
    
    let result = expect(&tokens, &mut pos, |t| matches!(t, Token::Tilde), "~");
    assert!(result.is_err());
    
    if let ParseError::Unexpected { expected, found } = result.unwrap_err() {
        assert_eq!(expected, "~");
        assert_eq!(found, None);
    } else {
        panic!("Expected ParseError::Unexpected");
    }
    
    assert_eq!(pos, 1); // Position unchanged
}

#[test]
fn test_expect_with_complex_predicate() {
    let tokens = vec![
        (Token::ColumnName, "x"),
        (Token::Integer, "42"),
        (Token::One, "1")
    ];
    let mut pos: usize = 0;
    
    // Expect any numeric token
    let numeric_predicate = |t: &Token| matches!(t, Token::Integer | Token::One);
    
    let result = expect(&tokens, &mut pos, numeric_predicate, "numeric token");
    assert!(result.is_err()); // ColumnName is not numeric
    assert_eq!(pos, 0);
    
    // Move to integer
    pos = 1;
    let result = expect(&tokens, &mut pos, numeric_predicate, "numeric token");
    assert!(result.is_ok()); // Integer is numeric
    assert_eq!(pos, 2);
}

#[test]
fn test_expect_advances_position_on_success() {
    let tokens = vec![
        (Token::ColumnName, "y"),
        (Token::Tilde, "~"),
        (Token::ColumnName, "x")
    ];
    let mut pos: usize = 0;
    
    // First expectation
    let result = expect(&tokens, &mut pos, |t| matches!(t, Token::ColumnName), "ColumnName");
    assert!(result.is_ok());
    assert_eq!(pos, 1);
    
    // Second expectation
    let result = expect(&tokens, &mut pos, |t| matches!(t, Token::Tilde), "~");
    assert!(result.is_ok());
    assert_eq!(pos, 2);
    
    // Third expectation
    let result = expect(&tokens, &mut pos, |t| matches!(t, Token::ColumnName), "ColumnName");
    assert!(result.is_ok());
    assert_eq!(pos, 3);
}

#[test]
fn test_expect_with_empty_tokens() {
    let tokens: Vec<(Token, &str)> = vec![];
    let mut pos: usize = 0;
    
    let result = expect(&tokens, &mut pos, |t| matches!(t, Token::ColumnName), "ColumnName");
    assert!(result.is_err());
    
    if let ParseError::Unexpected { expected, found } = result.unwrap_err() {
        assert_eq!(expected, "ColumnName");
        assert_eq!(found, None);
    } else {
        panic!("Expected ParseError::Unexpected");
    }
    
    assert_eq!(pos, 0); // Position unchanged
}

#[test]
fn test_expect_preserves_string_slice() {
    let tokens = vec![
        (Token::ColumnName, "response_variable"),
        (Token::Integer, "12345")
    ];
    let mut pos: usize = 0;
    
    let result = expect(&tokens, &mut pos, |t| matches!(t, Token::ColumnName), "ColumnName");
    assert!(result.is_ok());
    let (_, slice) = result.unwrap();
    assert_eq!(slice, "response_variable");
}

#[test]
fn test_matches_consumes_when_predicate_true() {
    let tokens = vec![(Token::Plus, "+"), (Token::ColumnName, "x")];
    let mut pos: usize = 0;

    let result = fiasto::cursor::matches(&tokens, &mut pos, |t| matches!(t, Token::Plus));
    assert!(result);
    assert_eq!(pos, 1); // Position advanced
}

#[test]
fn test_matches_does_not_consume_when_predicate_false() {
    let tokens = vec![(Token::Minus, "-"), (Token::ColumnName, "x")];
    let mut pos: usize = 0;

    let result = fiasto::cursor::matches(&tokens, &mut pos, |t| matches!(t, Token::Plus));
    assert!(!result);
    assert_eq!(pos, 0); // Position unchanged
}

#[test]
fn test_matches_with_multiple_plus_signs() {
    let tokens = vec![
        (Token::Plus, "+"),
        (Token::Plus, "+"),
        (Token::ColumnName, "x"),
    ];
    let mut pos: usize = 0;

    // First plus
    let first = fiasto::cursor::matches(&tokens, &mut pos, |t| matches!(t, Token::Plus));
    assert!(first);
    assert_eq!(pos, 1);

    // Second plus
    let second = fiasto::cursor::matches(&tokens, &mut pos, |t| matches!(t, Token::Plus));
    assert!(second);
    assert_eq!(pos, 2);

    // No more plus signs
    let third = fiasto::cursor::matches(&tokens, &mut pos, |t| matches!(t, Token::Plus));
    assert!(!third);
    assert_eq!(pos, 2); // Position unchanged
}

#[test]
fn test_matches_at_end_of_tokens() {
    let tokens = vec![(Token::ColumnName, "x")];
    let mut pos: usize = 1; // At end

    let result = fiasto::cursor::matches(&tokens, &mut pos, |t| matches!(t, Token::Plus));
    assert!(!result);
    assert_eq!(pos, 1); // Position unchanged
}

#[test]
fn test_matches_with_complex_predicate() {
    let tokens = vec![
        (Token::ColumnName, "x"),
        (Token::Integer, "42"),
        (Token::One, "1"),
    ];
    let mut pos: usize = 0;

    // Match any numeric token
    let numeric_predicate = |t: &Token| matches!(t, Token::Integer | Token::One);

    let first = fiasto::cursor::matches(&tokens, &mut pos, numeric_predicate);
    assert!(!first); // ColumnName is not numeric
    assert_eq!(pos, 0);

    // Move to integer
    pos = 1;
    let second = fiasto::cursor::matches(&tokens, &mut pos, numeric_predicate);
    assert!(second); // Integer is numeric
    assert_eq!(pos, 2);

    let third = fiasto::cursor::matches(&tokens, &mut pos, numeric_predicate);
    assert!(third); // One is numeric
    assert_eq!(pos, 3);
}

#[test]
fn test_matches_with_empty_tokens() {
    let tokens: Vec<(Token, &str)> = vec![];
    let mut pos: usize = 0;

    let result = fiasto::cursor::matches(&tokens, &mut pos, |t| matches!(t, Token::Plus));
    assert!(!result);
    assert_eq!(pos, 0); // Position unchanged
}

#[test]
fn test_matches_preserves_position_when_no_match() {
    let tokens = vec![
        (Token::ColumnName, "y"),
        (Token::Tilde, "~"),
        (Token::ColumnName, "x"),
    ];
    let mut pos: usize = 1; // At tilde

    let result = fiasto::cursor::matches(&tokens, &mut pos, |t| matches!(t, Token::Plus));
    assert!(!result);
    assert_eq!(pos, 1); // Still at tilde
}

#[test]
fn test_next_consumes_tokens() {
    let tokens = vec![
        (Token::ColumnName, "y"),
        (Token::Tilde, "~"),
        (Token::ColumnName, "x")
    ];
    let mut pos: usize = 0;
    
    let first = next(&tokens, &mut pos);
    assert_eq!(pos, 1);
    assert!(first.is_some());
    assert_eq!(first.unwrap().0, Token::ColumnName);
    
    let second = next(&tokens, &mut pos);
    assert_eq!(pos, 2);
    assert!(second.is_some());
    assert_eq!(second.unwrap().0, Token::Tilde);
    
    let third = next(&tokens, &mut pos);
    assert_eq!(pos, 3);
    assert!(third.is_some());
    assert_eq!(third.unwrap().0, Token::ColumnName);
}

#[test]
fn test_next_at_end_returns_none() {
    let tokens = vec![
        (Token::ColumnName, "y"),
        (Token::Tilde, "~")
    ];
    let mut pos: usize = 2; // At end
    
    let result = next(&tokens, &mut pos);
    assert!(result.is_none());
    assert_eq!(pos, 2); // Position unchanged
}

#[test]
fn test_next_beyond_end_returns_none() {
    let tokens = vec![
        (Token::ColumnName, "y")
    ];
    let mut pos: usize = 5; // Beyond end
    
    let result = next(&tokens, &mut pos);
    assert!(result.is_none());
    assert_eq!(pos, 5); // Position unchanged
}

#[test]
fn test_next_with_empty_tokens() {
    let tokens: Vec<(Token, &str)> = vec![];
    let mut pos: usize = 0;
    
    let result = next(&tokens, &mut pos);
    assert!(result.is_none());
    assert_eq!(pos, 0); // Position unchanged
}

#[test]
fn test_next_preserves_string_slices() {
    let tokens = vec![
        (Token::ColumnName, "response_var"),
        (Token::Integer, "42")
    ];
    let mut pos: usize = 0;
    
    let first = next(&tokens, &mut pos);
    assert_eq!(first.unwrap().1, "response_var");
    
    let second = next(&tokens, &mut pos);
    assert_eq!(second.unwrap().1, "42");
}

#[test]
fn test_next_with_function_tokens() {
    let tokens = vec![
        (Token::Poly, "poly"),
        (Token::FunctionStart, "("),
        (Token::ColumnName, "x"),
        (Token::Comma, ","),
        (Token::Integer, "3"),
        (Token::FunctionEnd, ")")
    ];
    let mut pos: usize = 0;
    
    // Consume function name
    let func_name = next(&tokens, &mut pos);
    assert_eq!(func_name.unwrap().0, Token::Poly);
    assert_eq!(pos, 1);
    
    // Consume opening parenthesis
    let open_paren = next(&tokens, &mut pos);
    assert_eq!(open_paren.unwrap().0, Token::FunctionStart);
    assert_eq!(pos, 2);
}

#[test]
fn test_peek_at_start() {
    let tokens = vec![
        (Token::ColumnName, "y"),
        (Token::Tilde, "~"),
        (Token::ColumnName, "x"),
    ];

    let result = peek(&tokens, 0);
    assert!(result.is_some());
    let (token, slice) = result.unwrap();
    assert_eq!(*token, Token::ColumnName);
    assert_eq!(*slice, "y");
}

#[test]
fn test_peek_at_middle() {
    let tokens = vec![
        (Token::ColumnName, "y"),
        (Token::Tilde, "~"),
        (Token::ColumnName, "x"),
    ];

    let result = peek(&tokens, 1);
    assert!(result.is_some());
    let (token, slice) = result.unwrap();
    assert_eq!(*token, Token::Tilde);
    assert_eq!(*slice, "~");
}

#[test]
fn test_peek_at_end() {
    let tokens = vec![
        (Token::ColumnName, "y"),
        (Token::Tilde, "~"),
        (Token::ColumnName, "x"),
    ];

    let result = peek(&tokens, 2);
    assert!(result.is_some());
    let (token, slice) = result.unwrap();
    assert_eq!(*token, Token::ColumnName);
    assert_eq!(*slice, "x");
}

#[test]
fn test_peek_beyond_end() {
    let tokens = vec![(Token::ColumnName, "y"), (Token::Tilde, "~")];

    let result = peek(&tokens, 2);
    assert!(result.is_none());
}

#[test]
fn test_peek_empty_tokens() {
    let tokens: Vec<(Token, &str)> = vec![];

    let result = peek(&tokens, 0);
    assert!(result.is_none());
}

#[test]
fn test_peek_with_function_tokens() {
    let tokens = vec![
        (Token::Poly, "poly"),
        (Token::FunctionStart, "("),
        (Token::ColumnName, "x"),
        (Token::Comma, ","),
        (Token::Integer, "2"),
        (Token::FunctionEnd, ")"),
    ];

    let result = peek(&tokens, 3);
    assert!(result.is_some());
    let (token, slice) = result.unwrap();
    assert_eq!(*token, Token::Comma);
    assert_eq!(*slice, ",");
}

