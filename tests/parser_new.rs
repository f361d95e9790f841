use fiasto::parser::new;

#[test]
fn test_new_simple_formula() {
    let result = new("y ~ x");
    assert!(result.is_ok());

    let parser = result.unwrap();
    assert_eq!(parser.input, "y ~ x");
    assert_eq!(parser.pos, 0);
    assert_eq!(parser.tokens.len(), 3); // y, ~, x
}

#[test]
fn test_new_complex_formula() {
    let result = new("y ~ x + poly(x, 2)");
    assert!(result.is_ok());

    let parser = result.unwrap();
    assert_eq!(parser.input, "y ~ x + poly(x, 2)");
    assert_eq!(parser.pos, 0);
    assert!(parser.tokens.len() > 5); // Multiple tokens including function
}

#[test]
fn test_new_with_whitespace() {
    let result = new("  y   ~   x  ");
    assert!(result.is_ok());

    let parser = result.unwrap();
    assert_eq!(parser.input, "  y   ~   x  ");
    assert_eq!(parser.pos, 0);
    // Whitespace should be skipped, so we get the same tokens
    assert_eq!(parser.tokens.len(), 3);
}

#[test]
fn test_new_empty_string() {
    let result = new("");
    assert!(result.is_ok());

    let parser = result.unwrap();
    assert_eq!(parser.input, "");
    assert_eq!(parser.pos, 0);
    assert_eq!(parser.tokens.len(), 0);
}

