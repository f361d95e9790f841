use fiasto::ast::{Argument, Family, Response, Term};
use fiasto::grammar::{
    parse_arg, parse_arg_list, parse_family, parse_formula, parse_response, parse_rhs, parse_term,
};
use fiasto::lexer::Token;

#[test]
fn test_parse_arg_column_name() {
    let tokens = vec![
        (Token::ColumnName, "x")
    ];
    let mut pos: usize = 0;
    
    let result = parse_arg(&tokens, &mut pos);
    assert!(result.is_ok());
    match result.unwrap() {
        Argument::Ident(name) => assert_eq!(name, "x"),
        _ => panic!("Expected identifier argument")
    }
    assert_eq!(pos, 1);
}

#[test]
fn test_parse_arg_integer() {
    let tokens = vec![
        (Token::Integer, "42")
    ];
    let mut pos: usize = 0;
    
    let result = parse_arg(&tokens, &mut pos);
    assert!(result.is_ok());
    match result.unwrap() {
        Argument::Integer(value) => assert_eq!(value, 42),
        _ => panic!("Expected integer argument")
    }
    assert_eq!(pos, 1);
}

#[test]
fn test_parse_arg_one() {
    let tokens = vec![
        (Token::One, "1")
    ];
    let mut pos: usize = 0;
    
    let result = parse_arg(&tokens, &mut pos);
    assert!(result.is_ok());
    match result.unwrap() {
        Argument::Integer(value) => assert_eq!(value, 1),
        _ => panic!("Expected integer argument")
    }
    assert_eq!(pos, 1);
}

#[test]
fn test_parse_arg_long_column_name() {
    let tokens = vec![
        (Token::ColumnName, "very_long_variable_name")
    ];
    let mut pos: usize = 0;
    
    let result = parse_arg(&tokens, &mut pos);
    assert!(result.is_ok());
    match result.unwrap() {
        Argument::Ident(name) => assert_eq!(name, "very_long_variable_name"),
        _ => panic!("Expected identifier argument")
    }
    assert_eq!(pos, 1);
}

#[test]
fn test_parse_arg_numeric_column_name() {
    let tokens = vec![
        (Token::ColumnName, "x1")
    ];
    let mut pos: usize = 0;
    
    let result = parse_arg(&tokens, &mut pos);
    assert!(result.is_ok());
    match result.unwrap() {
        Argument::Ident(name) => assert_eq!(name, "x1"),
        _ => panic!("Expected identifier argument")
    }
    assert_eq!(pos, 1);
}

#[test]
fn test_parse_arg_large_integer() {
    let tokens = vec![
        (Token::Integer, "1000")
    ];
    let mut pos: usize = 0;
    
    let result = parse_arg(&tokens, &mut pos);
    assert!(result.is_ok());
    match result.unwrap() {
        Argument::Integer(value) => assert_eq!(value, 1000),
        _ => panic!("Expected integer argument")
    }
    assert_eq!(pos, 1);
}

#[test]
fn test_parse_arg_zero() {
    let tokens = vec![
        (Token::Integer, "0")
    ];
    let mut pos: usize = 0;
    
    let result = parse_arg(&tokens, &mut pos);
    assert!(result.is_ok());
    match result.unwrap() {
        Argument::Integer(value) => assert_eq!(value, 0),
        _ => panic!("Expected integer argument")
    }
    assert_eq!(pos, 1);
}

#[test]
fn test_parse_arg_invalid_token() {
    let tokens = vec![
        (Token::Plus, "+")
    ];
    let mut pos: usize = 0;
    
    let result = parse_arg(&tokens, &mut pos);
    assert!(result.is_err());
    assert_eq!(pos, 0); // Position unchanged
}

#[test]
fn test_parse_arg_end_of_input() {
    let tokens: Vec<(Token, &str)> = vec![];
    let mut pos: usize = 0;
    
    let result = parse_arg(&tokens, &mut pos);
    assert!(result.is_err());
    assert_eq!(pos, 0); // Position unchanged
}

#[test]
fn test_parse_arg_advances_position_on_success() {
    let tokens = vec![
        (Token::ColumnName, "x"),
        (Token::Integer, "5")
    ];
    let mut pos: usize = 0;
    
    // First argument
    let result = parse_arg(&tokens, &mut pos);
    assert!(result.is_ok());
    assert_eq!(pos, 1);
    
    // Second argument
    let result = parse_arg(&tokens, &mut pos);
    assert!(result.is_ok());
    assert_eq!(pos, 2);
}

#[test]
fn test_parse_arg_preserves_string_slice() {
    let tokens = vec![
        (Token::ColumnName, "response_variable"),
        (Token::Integer, "12345")
    ];
    let mut pos: usize = 0;
    
    let result = parse_arg(&tokens, &mut pos);
    assert!(result.is_ok());
    match result.unwrap() {
        Argument::Ident(name) => assert_eq!(name, "response_variable"),
        _ => panic!("Expected identifier argument")
    }
    
    pos = 1;
    let result = parse_arg(&tokens, &mut pos);
    assert!(result.is_ok());
    match result.unwrap() {
        Argument::Integer(value) => assert_eq!(value, 12345),
        _ => panic!("Expected integer argument")
    }
}

#[test]
fn test_parse_arg_list_empty() {
    let tokens = vec![(Token::FunctionEnd, ")")];
    let mut pos: usize = 0;

    let result = parse_arg_list(&tokens, &mut pos);
    assert!(result.is_ok());
    let args = result.unwrap();
    assert_eq!(args.len(), 0);
    assert_eq!(pos, 0); // Position unchanged
}

#[test]
fn test_parse_arg_list_single_argument() {
    let tokens = vec![(Token::ColumnName, "x"), (Token::FunctionEnd, ")")];
    let mut pos: usize = 0;

    let result = parse_arg_list(&tokens, &mut pos);
    assert!(result.is_ok());
    let args = result.unwrap();
    assert_eq!(args.len(), 1);
    assert_eq!(pos, 1); // Position advanced past argument
}

#[test]
fn test_parse_arg_list_two_arguments() {
    let tokens = vec![
        (Token::ColumnName, "x"),
        (Token::Comma, ","),
        (Token::Integer, "2"),
        (Token::FunctionEnd, ")"),
    ];
    let mut pos: usize = 0;

    let result = parse_arg_list(&tokens, &mut pos);
    assert!(result.is_ok());
    let args = result.unwrap();
    assert_eq!(args.len(), 2);
    assert_eq!(pos, 3); // Position advanced past all arguments
}

#[test]
fn test_parse_arg_list_multiple_arguments() {
    let tokens = vec![
        (Token::ColumnName, "x"),
        (Token::Comma, ","),
        (Token::ColumnName, "y"),
        (Token::Comma, ","),
        (Token::Integer, "10"),
        (Token::FunctionEnd, ")"),
    ];
    let mut pos: usize = 0;

    let result = parse_arg_list(&tokens, &mut pos);
    assert!(result.is_ok());
    let args = result.unwrap();
    assert_eq!(args.len(), 3);
    assert_eq!(pos, 5); // Position advanced past all arguments
}

#[test]
fn test_parse_arg_list_with_integer_argument() {
    let tokens = vec![(Token::Integer, "42"), (Token::FunctionEnd, ")")];
    let mut pos: usize = 0;

    let result = parse_arg_list(&tokens, &mut pos);
    assert!(result.is_ok());
    let args = result.unwrap();
    assert_eq!(args.len(), 1);
    assert_eq!(pos, 1);
}

#[test]
fn test_parse_arg_list_with_one_argument() {
    let tokens = vec![(Token::One, "1"), (Token::FunctionEnd, ")")];
    let mut pos: usize = 0;

    let result = parse_arg_list(&tokens, &mut pos);
    assert!(result.is_ok());
    let args = result.unwrap();
    assert_eq!(args.len(), 1);
    assert_eq!(pos, 1);
}

#[test]
fn test_parse_arg_list_mixed_types() {
    let tokens = vec![
        (Token::ColumnName, "variable"),
        (Token::Comma, ","),
        (Token::Integer, "5"),
        (Token::Comma, ","),
        (Token::One, "1"),
        (Token::FunctionEnd, ")"),
    ];
    let mut pos: usize = 0;

    let result = parse_arg_list(&tokens, &mut pos);
    assert!(result.is_ok());
    let args = result.unwrap();
    assert_eq!(args.len(), 3);
    assert_eq!(pos, 5);
}

#[test]
fn test_parse_arg_list_no_closing_paren() {
    let tokens = vec![
        (Token::ColumnName, "x"),
        (Token::Comma, ","),
        (Token::ColumnName, "y"),
    ];
    let mut pos: usize = 0;

    let result = parse_arg_list(&tokens, &mut pos);
    assert!(result.is_ok()); // This should succeed as it's not this function's job to check for closing paren
    let args = result.unwrap();
    assert_eq!(args.len(), 2);
    assert_eq!(pos, 3);
}

#[test]
fn test_parse_arg_list_with_whitespace_equivalent() {
    // Test that the function handles tokens correctly regardless of spacing
    let tokens = vec![
        (Token::ColumnName, "x"),
        (Token::Comma, ","),
        (Token::ColumnName, "y"),
        (Token::Comma, ","),
        (Token::ColumnName, "z"),
        (Token::FunctionEnd, ")"),
    ];
    let mut pos: usize = 0;

    let result = parse_arg_list(&tokens, &mut pos);
    assert!(result.is_ok());
    let args = result.unwrap();
    assert_eq!(args.len(), 3);
    assert_eq!(pos, 5);
}

#[test]
fn test_parse_family_gaussian() {
    let tokens = vec![
        (Token::Gaussian, "gaussian")
    ];
    let mut pos: usize = 0;
    
    let result = parse_family(&tokens, &mut pos);
    assert!(result.is_ok());
    assert_eq!(result.unwrap(), Family::Gaussian);
    assert_eq!(pos, 1);
}

#[test]
fn test_parse_family_binomial() {
    let tokens = vec![
        (Token::Binomial, "binomial")
    ];
    let mut pos: usize = 0;
    
    let result = parse_family(&tokens, &mut pos);
    assert!(result.is_ok());
    assert_eq!(result.unwrap(), Family::Binomial);
    assert_eq!(pos, 1);
}

#[test]
fn test_parse_family_poisson() {
    let tokens = vec![
        (Token::Poisson, "poisson")
    ];
    let mut pos: usize = 0;
    
    let result = parse_family(&tokens, &mut pos);
    assert!(result.is_ok());
    assert_eq!(result.unwrap(), Family::Poisson);
    assert_eq!(pos, 1);
}

#[test]
fn test_parse_family_invalid_token() {
    let tokens = vec![
        (Token::ColumnName, "x")
    ];
    let mut pos: usize = 0;
    
    let result = parse_family(&tokens, &mut pos);
    assert!(result.is_err());
    assert_eq!(pos, 0); // Position unchanged
}

#[test]
fn test_parse_family_end_of_input() {
    let tokens: Vec<(Token, &str)> = vec![];
    let mut pos: usize = 0;
    
    let result = parse_family(&tokens, &mut pos);
    assert!(result.is_err());
    assert_eq!(pos, 0); // Position unchanged
}

#[test]
fn test_parse_family_with_plus_token() {
    let tokens = vec![
        (Token::Plus, "+")
    ];
    let mut pos: usize = 0;
    
    let result = parse_family(&tokens, &mut pos);
    assert!(result.is_err());
    assert_eq!(pos, 0); // Position unchanged
}

#[test]
fn test_parse_family_with_tilde_token() {
    let tokens = vec![
        (Token::Tilde, "~")
    ];
    let mut pos: usize = 0;
    
    let result = parse_family(&tokens, &mut pos);
    assert!(result.is_err());
    assert_eq!(pos, 0); // Position unchanged
}

#[test]
fn test_parse_family_with_comma_token() {
    let tokens = vec![
        (Token::Comma, ",")
    ];
    let mut pos: usize = 0;
    
    let result = parse_family(&tokens, &mut pos);
    assert!(result.is_err());
    assert_eq!(pos, 0); // Position unchanged
}

#[test]
fn test_parse_family_with_equal_token() {
    let tokens = vec![
        (Token::Equal, "=")
    ];
    let mut pos: usize = 0;
    
    let result = parse_family(&tokens, &mut pos);
    assert!(result.is_err());
    assert_eq!(pos, 0); // Position unchanged
}

#[test]
fn test_parse_family_with_function_tokens() {
    let tokens = vec![
        (Token::Poly, "poly")
    ];
    let mut pos: usize = 0;
    
    let result = parse_family(&tokens, &mut pos);
    assert!(result.is_err());
    assert_eq!(pos, 0); // Position unchanged
}

#[test]
fn test_parse_family_with_numeric_tokens() {
    let tokens = vec![
        (Token::Integer, "42")
    ];
    let mut pos: usize = 0;
    
    let result = parse_family(&tokens, &mut pos);
    assert!(result.is_err());
    assert_eq!(pos, 0); // Position unchanged
}

#[test]
fn test_parse_family_with_one_token() {
    let tokens = vec![
        (Token::One, "1")
    ];
    let mut pos: usize = 0;
    
    let result = parse_family(&tokens, &mut pos);
    assert!(result.is_err());
    assert_eq!(pos, 0); // Position unchanged
}

#[test]
fn test_parse_family_advances_position_on_success() {
    let tokens = vec![
        (Token::Gaussian, "gaussian"),
        (Token::Comma, ",")
    ];
    let mut pos: usize = 0;
    
    let result = parse_family(&tokens, &mut pos);
    assert!(result.is_ok());
    assert_eq!(result.unwrap(), Family::Gaussian);
    assert_eq!(pos, 1); // Position advanced past family
}

#[test]
fn test_parse_family_all_variants() {
    let families = vec![
        (Token::Gaussian, Family::Gaussian),
        (Token::Binomial, Family::Binomial),
        (Token::Poisson, Family::Poisson),
    ];
    
    for (token, expected_family) in families {
        let tokens = vec![(token, "dummy")];
        let mut pos: usize = 0;
        
        let result = parse_family(&tokens, &mut pos);
        assert!(result.is_ok());
        assert_eq!(result.unwrap(), expected_family);
        assert_eq!(pos, 1);
    }
}

#[test]
fn test_parse_formula_simple() {
    let tokens = vec![
        (Token::ColumnName, "y"),
        (Token::Tilde, "~"),
        (Token::ColumnName, "x")
    ];
    let mut pos: usize = 0;
    
    let result = parse_formula(&tokens, &mut pos);
    assert!(result.is_ok());
    let (response, terms, has_intercept, family) = result.unwrap();
    assert_eq!(response, Response::Single("y".to_string()));
    assert_eq!(terms.len(), 1);
    assert!(has_intercept);
    assert!(family.is_none());
}

#[test]
fn test_parse_formula_with_multiple_terms() {
    let tokens = vec![
        (Token::ColumnName, "y"),
        (Token::Tilde, "~"),
        (Token::ColumnName, "x"),
        (Token::Plus, "+"),
        (Token::ColumnName, "z")
    ];
    let mut pos: usize = 0;
    
    let result = parse_formula(&tokens, &mut pos);
    assert!(result.is_ok());
    let (response, terms, has_intercept, family) = result.unwrap();
    assert_eq!(response, Response::Single("y".to_string()));
    assert_eq!(terms.len(), 2);
    assert!(has_intercept);
    assert!(family.is_none());
}

#[test]
fn test_parse_formula_without_intercept() {
    let tokens = vec![
        (Token::ColumnName, "y"),
        (Token::Tilde, "~"),
        (Token::ColumnName, "x"),
        (Token::Minus, "-"),
        (Token::One, "1")
    ];
    let mut pos: usize = 0;
    
    let result = parse_formula(&tokens, &mut pos);
    assert!(result.is_ok());
    let (response, terms, has_intercept, family) = result.unwrap();
    assert_eq!(response, Response::Single("y".to_string()));
    assert_eq!(terms.len(), 1);
    assert!(!has_intercept);
    assert!(family.is_none());
}

#[test]
fn test_parse_formula_with_family() {
    let tokens = vec![
        (Token::ColumnName, "y"),
        (Token::Tilde, "~"),
        (Token::ColumnName, "x"),
        (Token::Comma, ","),
        (Token::Family, "family"),
        (Token::Equal, "="),
        (Token::Gaussian, "gaussian")
    ];
    let mut pos: usize = 0;
    
    let result = parse_formula(&tokens, &mut pos);
    assert!(result.is_ok());
    let (response, terms, has_intercept, family) = result.unwrap();
    assert_eq!(response, Response::Single("y".to_string()));
    assert_eq!(terms.len(), 1);
    assert!(has_intercept);
    assert!(family.is_some());
    assert_eq!(family.unwrap(), Family::Gaussian);
}

#[test]
fn test_parse_formula_failure_missing_tilde() {
    let tokens = vec![
        (Token::ColumnName, "y"),
        (Token::ColumnName, "x")
    ];
    let mut pos: usize = 0;
    
    let result = parse_formula(&tokens, &mut pos);
    assert!(result.is_err());
    assert_eq!(pos, 1); // Position advanced past response
}

#[test]
fn test_parse_formula_failure_missing_family_after_comma() {
    let tokens = vec![
        (Token::ColumnName, "y"),
        (Token::Tilde, "~"),
        (Token::ColumnName, "x"),
        (Token::Comma, ",")
    ];
    let mut pos: usize = 0;
    
    let result = parse_formula(&tokens, &mut pos);
    assert!(result.is_err());
    assert_eq!(pos, 4); // Position advanced to comma
}

#[test]
fn test_parse_formula_with_function_terms() {
    let tokens = vec![
        (Token::ColumnName, "y"),
        (Token::Tilde, "~"),
        (Token::Poly, "poly"),
        (Token::FunctionStart, "("),
        (Token::ColumnName, "x"),
        (Token::Comma, ","),
        (Token::Integer, "2"),
        (Token::FunctionEnd, ")")
    ];
    let mut pos: usize = 0;
    
    let result = parse_formula(&tokens, &mut pos);
    assert!(result.is_ok());
    let (response, terms, has_intercept, family) = result.unwrap();
    assert_eq!(response, Response::Single("y".to_string()));
    assert_eq!(terms.len(), 1);
    assert!(has_intercept);
    assert!(family.is_none());
}

#[test]
fn test_parse_formula_empty_rhs() {
    let tokens = vec![
        (Token::ColumnName, "y"),
        (Token::Tilde, "~")
    ];
    let mut pos: usize = 0;
    
    let result = parse_formula(&tokens, &mut pos);
    assert!(result.is_ok());
    let (response, terms, has_intercept, family) = result.unwrap();
    assert_eq!(response, Response::Single("y".to_string()));
    assert_eq!(terms.len(), 0);
    assert!(has_intercept);
    assert!(family.is_none());
}

#[test]
fn test_parse_response_simple() {
    let tokens = vec![
        (Token::ColumnName, "y"),
        (Token::Tilde, "~"),
        (Token::ColumnName, "x"),
    ];
    let mut pos: usize = 0;

    let result = parse_response(&tokens, &mut pos);
    assert!(result.is_ok());
    match result.unwrap() {
        Response::Single(name) => assert_eq!(name, "y"),
        _ => panic!("Expected single response"),
    }
    assert_eq!(pos, 1); // Position advanced
}

#[test]
fn test_parse_response_with_long_name() {
    let tokens = vec![
        (Token::ColumnName, "response_variable"),
        (Token::Tilde, "~"),
        (Token::ColumnName, "x"),
    ];
    let mut pos: usize = 0;

    let result = parse_response(&tokens, &mut pos);
    assert!(result.is_ok());
    match result.unwrap() {
        Response::Single(name) => assert_eq!(name, "response_variable"),
        _ => panic!("Expected single response"),
    }
    assert_eq!(pos, 1);
}

#[test]
fn test_parse_response_failure_wrong_token() {
    let tokens = vec![(Token::Tilde, "~"), (Token::ColumnName, "y")];
    let mut pos: usize = 0;

    let result = parse_response(&tokens, &mut pos);
    assert!(result.is_err());
    assert_eq!(pos, 0); // Position unchanged
}

#[test]
fn test_parse_response_failure_end_of_input() {
    let tokens: Vec<(Token, &str)> = vec![];
    let mut pos: usize = 0;

    let result = parse_response(&tokens, &mut pos);
    assert!(result.is_err());
    assert_eq!(pos, 0); // Position unchanged
}

#[test]
fn test_parse_response_with_numeric_name() {
    let tokens = vec![
        (Token::ColumnName, "y1"),
        (Token::Tilde, "~"),
        (Token::ColumnName, "x"),
    ];
    let mut pos: usize = 0;

    let result = parse_response(&tokens, &mut pos);
    assert!(result.is_ok());
    match result.unwrap() {
        Response::Single(name) => assert_eq!(name, "y1"),
        _ => panic!("Expected single response"),
    }
    assert_eq!(pos, 1);
}

#[test]
fn test_parse_response_with_underscore_name() {
    let tokens = vec![
        (Token::ColumnName, "target_variable"),
        (Token::Tilde, "~"),
        (Token::ColumnName, "feature"),
    ];
    let mut pos: usize = 0;

    let result = parse_response(&tokens, &mut pos);
    assert!(result.is_ok());
    match result.unwrap() {
        Response::Single(name) => assert_eq!(name, "target_variable"),
        _ => panic!("Expected single response"),
    }
    assert_eq!(pos, 1);
}

#[test]
fn test_parse_response_preserves_position_on_failure() {
    let tokens = vec![(Token::Plus, "+"), (Token::ColumnName, "y")];
    let mut pos: usize = 0;

    let result = parse_response(&tokens, &mut pos);
    assert!(result.is_err());
    assert_eq!(pos, 0); // Position unchanged
}

#[test]
fn test_parse_response_with_single_token() {
    let tokens = vec![(Token::ColumnName, "z")];
    let mut pos: usize = 0;

    let result = parse_response(&tokens, &mut pos);
    assert!(result.is_ok());
    match result.unwrap() {
        Response::Single(name) => assert_eq!(name, "z"),
        _ => panic!("Expected single response"),
    }
    assert_eq!(pos, 1);
}

#[test]
fn test_parse_rhs_single_term() {
    let tokens = vec![
        (Token::ColumnName, "x")
    ];
    let mut pos: usize = 0;
    
    let result = parse_rhs(&tokens, &mut pos);
    assert!(result.is_ok());
    let (terms, has_intercept) = result.unwrap();
    assert_eq!(terms.len(), 1);
    assert!(has_intercept);
}

#[test]
fn test_parse_rhs_multiple_terms() {
    let tokens = vec![
        (Token::ColumnName, "x"),
        (Token::Plus, "+"),
        (Token::ColumnName, "z")
    ];
    let mut pos: usize = 0;
    
    let result = parse_rhs(&tokens, &mut pos);
    assert!(result.is_ok());
    let (terms, has_intercept) = result.unwrap();
    assert_eq!(terms.len(), 2);
    assert!(has_intercept);
}

#[test]
fn test_parse_rhs_without_intercept() {
    let tokens = vec![
        (Token::ColumnName, "x"),
        (Token::Minus, "-"),
        (Token::One, "1")
    ];
    let mut pos: usize = 0;
    
    let result = parse_rhs(&tokens, &mut pos);
    assert!(result.is_ok());
    let (terms, has_intercept) = result.unwrap();
    assert_eq!(terms.len(), 1);
    assert!(!has_intercept);
}

#[test]
fn test_parse_rhs_empty() {
    let tokens: Vec<(Token, &str)> = vec![];
    let mut pos: usize = 0;
    
    let result = parse_rhs(&tokens, &mut pos);
    assert!(result.is_ok());
    let (terms, has_intercept) = result.unwrap();
    assert_eq!(terms.len(), 0);
    assert!(has_intercept);
}

#[test]
fn test_parse_rhs_leading_plus() {
    let tokens = vec![
        (Token::Plus, "+"),
        (Token::ColumnName, "x")
    ];
    let mut pos: usize = 0;
    
    let result = parse_rhs(&tokens, &mut pos);
    assert!(result.is_ok());
    let (terms, has_intercept) = result.unwrap();
    assert_eq!(terms.len(), 1); // Only x, not +x
    assert!(has_intercept);
    assert_eq!(pos, 2); // Position advanced past both + and x
}

#[test]
fn test_parse_rhs_minus_without_one() {
    let tokens = vec![
        (Token::ColumnName, "x"),
        (Token::Minus, "-"),
        (Token::ColumnName, "y")
    ];
    let mut pos: usize = 0;
    
    let result = parse_rhs(&tokens, &mut pos);
    assert!(result.is_err());
    assert_eq!(pos, 2); // Position advanced past x and minus
}

#[test]
fn test_parse_rhs_multiple_plus_terms() {
    let tokens = vec![
        (Token::ColumnName, "x"),
        (Token::Plus, "+"),
        (Token::ColumnName, "y"),
        (Token::Plus, "+"),
        (Token::ColumnName, "z")
    ];
    let mut pos: usize = 0;
    
    let result = parse_rhs(&tokens, &mut pos);
    assert!(result.is_ok());
    let (terms, has_intercept) = result.unwrap();
    assert_eq!(terms.len(), 3);
    assert!(has_intercept);
}

#[test]
fn test_parse_rhs_with_function_terms() {
    let tokens = vec![
        (Token::Poly, "poly"),
        (Token::FunctionStart, "("),
        (Token::ColumnName, "x"),
        (Token::Comma, ","),
        (Token::Integer, "2"),
        (Token::FunctionEnd, ")"),
        (Token::Plus, "+"),
        (Token::ColumnName, "z")
    ];
    let mut pos: usize = 0;
    
    let result = parse_rhs(&tokens, &mut pos);
    assert!(result.is_ok());
    let (terms, has_intercept) = result.unwrap();
    assert_eq!(terms.len(), 2);
    assert!(has_intercept);
}

#[test]
fn test_parse_rhs_stops_at_comma() {
    let tokens = vec![
        (Token::ColumnName, "x"),
        (Token::Comma, ","),
        (Token::Family, "family")
    ];
    let mut pos: usize = 0;
    
    let result = parse_rhs(&tokens, &mut pos);
    assert!(result.is_ok());
    let (terms, has_intercept) = result.unwrap();
    assert_eq!(terms.len(), 1);
    assert!(has_intercept);
    assert_eq!(pos, 1); // Position at comma
}

#[test]
fn test_parse_term_simple_column() {
    let tokens = vec![(Token::ColumnName, "x")];
    let mut pos: usize = 0;

    let result = parse_term(&tokens, &mut pos);
    assert!(result.is_ok());
    match result.unwrap() {
        Term::Column(name) => assert_eq!(name, "x"),
        _ => panic!("Expected column term"),
    }
    assert_eq!(pos, 1);
}

#[test]
fn test_parse_term_poly_function() {
    let tokens = vec![
        (Token::Poly, "poly"),
        (Token::FunctionStart, "("),
        (Token::ColumnName, "x"),
        (Token::Comma, ","),
        (Token::Integer, "2"),
        (Token::FunctionEnd, ")"),
    ];
    let mut pos: usize = 0;

    let result = parse_term(&tokens, &mut pos);
    assert!(result.is_ok());
    match result.unwrap() {
        Term::Function { name, args } => {
            assert_eq!(name, "poly");
            assert_eq!(args.len(), 2);
        }
        _ => panic!("Expected function term"),
    }
    assert_eq!(pos, 6);
}

#[test]
fn test_parse_term_custom_function() {
    let tokens = vec![
        (Token::ColumnName, "log"),
        (Token::FunctionStart, "("),
        (Token::ColumnName, "price"),
        (Token::FunctionEnd, ")"),
    ];
    let mut pos: usize = 0;

    let result = parse_term(&tokens, &mut pos);
    assert!(result.is_ok());
    match result.unwrap() {
        Term::Function { name, args } => {
            assert_eq!(name, "log");
            assert_eq!(args.len(), 1);
        }
        _ => panic!("Expected function term"),
    }
    assert_eq!(pos, 4);
}

#[test]
fn test_parse_term_poly_without_parentheses() {
    let tokens = vec![(Token::Poly, "poly")];
    let mut pos: usize = 0;

    let result = parse_term(&tokens, &mut pos);
    assert!(result.is_err());
    assert_eq!(pos, 1); // Position advanced past poly
}

#[test]
fn test_parse_term_function_with_multiple_args() {
    let tokens = vec![
        (Token::ColumnName, "custom_func"),
        (Token::FunctionStart, "("),
        (Token::ColumnName, "x"),
        (Token::Comma, ","),
        (Token::ColumnName, "y"),
        (Token::Comma, ","),
        (Token::Integer, "10"),
        (Token::FunctionEnd, ")"),
    ];
    let mut pos: usize = 0;

    let result = parse_term(&tokens, &mut pos);
    assert!(result.is_ok());
    match result.unwrap() {
        Term::Function { name, args } => {
            assert_eq!(name, "custom_func");
            assert_eq!(args.len(), 3);
        }
        _ => panic!("Expected function term"),
    }
    assert_eq!(pos, 8);
}

#[test]
fn test_parse_term_function_without_closing_paren() {
    let tokens = vec![
        (Token::ColumnName, "func"),
        (Token::FunctionStart, "("),
        (Token::ColumnName, "x"),
    ];
    let mut pos: usize = 0;

    let result = parse_term(&tokens, &mut pos);
    assert!(result.is_err());
    assert_eq!(pos, 3); // Position at end
}

#[test]
fn test_parse_term_long_column_name() {
    let tokens = vec![(Token::ColumnName, "very_long_column_name_with_underscores")];
    let mut pos: usize = 0;

    let result = parse_term(&tokens, &mut pos);
    assert!(result.is_ok());
    match result.unwrap() {
        Term::Column(name) => assert_eq!(name, "very_long_column_name_with_underscores"),
        _ => panic!("Expected column term"),
    }
    assert_eq!(pos, 1);
}

#[test]
fn test_parse_term_numeric_column_name() {
    let tokens = vec![(Token::ColumnName, "x1")];
    let mut pos: usize = 0;

    let result = parse_term(&tokens, &mut pos);
    assert!(result.is_ok());
    match result.unwrap() {
        Term::Column(name) => assert_eq!(name, "x1"),
        _ => panic!("Expected column term"),
    }
    assert_eq!(pos, 1);
}

