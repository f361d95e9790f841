use fiasto::ast::{
    Argument, CorrelationType, Family, Grouping, RandomEffect, RandomTerm, Response, Term,
};
use fiasto::errors::ParseError;
use fiasto::metadata::{FormulaMetaData, ParamValue, VariableRole};
use fiasto::parse_formula;
use fiasto::parser::Parser;

fn columns_of(m: &FormulaMetaData) -> Vec<&str> {
    m.all_generated_columns.iter().map(|c| c.as_str()).collect()
}

fn order_get<'m>(m: &'m FormulaMetaData, key: &str) -> Option<&'m str> {
    m.all_generated_columns_formula_order
        .iter()
        .find(|(k, _)| k == key)
        .map(|(_, v)| v.as_str())
}

#[test]
fn test_intercept_and_formula_order_with_intercept() {
    let formula = "y ~ x + poly(x, 2) + log(z)";
    let result = parse_formula(formula).expect("Should parse successfully");
    let all_columns = columns_of(&result);
    assert!(
        all_columns.iter().any(|col| *col == "intercept"),
        "Intercept should be present in all_generated_columns"
    );
    let expected_columns = vec!["y", "intercept", "x", "x_poly_1", "x_poly_2", "z_log"];
    assert_eq!(all_columns, expected_columns, "all_generated_columns should have the correct order");
    assert_eq!(order_get(&result, "1"), Some("y"));
    assert_eq!(order_get(&result, "2"), Some("intercept"));
    assert_eq!(order_get(&result, "3"), Some("x"));
    assert_eq!(order_get(&result, "4"), Some("x_poly_1"));
    assert_eq!(order_get(&result, "5"), Some("x_poly_2"));
    assert_eq!(order_get(&result, "6"), Some("z_log"));
    assert_eq!(result.metadata.has_intercept, true);
}

#[test]
fn test_intercept_and_formula_order_without_intercept() {
    let formula = "y ~ x + poly(x, 2) + log(z) - 1";
    let result = parse_formula(formula).expect("Should parse successfully");
    let all_columns = columns_of(&result);
    assert!(
        !all_columns.iter().any(|col| *col == "intercept"),
        "Intercept should NOT be present when has_intercept is false"
    );
    let expected_columns = vec!["y", "x", "x_poly_1", "x_poly_2", "z_log"];
    assert_eq!(
        all_columns, expected_columns,
        "all_generated_columns should have the correct order without intercept"
    );
    assert_eq!(order_get(&result, "1"), Some("y"));
    assert_eq!(order_get(&result, "2"), Some("x"));
    assert_eq!(order_get(&result, "3"), Some("x_poly_1"));
    assert_eq!(order_get(&result, "4"), Some("x_poly_2"));
    assert_eq!(order_get(&result, "5"), Some("z_log"));
    assert_eq!(result.metadata.has_intercept, false);
}

#[test]
fn test_simple_formula_with_intercept() {
    let formula = "y ~ x";
    let result = parse_formula(formula).expect("Should parse successfully");
    let all_columns = columns_of(&result);
    assert!(
        all_columns.iter().any(|col| *col == "intercept"),
        "Intercept should be present in simple formula"
    );
    let expected_columns = vec!["y", "intercept", "x"];
    assert_eq!(all_columns, expected_columns);
    assert_eq!(order_get(&result, "1"), Some("y"));
    assert_eq!(order_get(&result, "2"), Some("intercept"));
    assert_eq!(order_get(&result, "3"), Some("x"));
}

#[test]
fn test_complex_formula_with_intercept() {
    let formula = "y ~ x1 + x2*x3 + poly(x1, 2) + log(z)";
    let result = parse_formula(formula).expect("Should parse successfully");
    let all_columns = columns_of(&result);
    assert!(
        all_columns.iter().any(|col| *col == "intercept"),
        "Intercept should be present in complex formula"
    );
    assert_eq!(all_columns[1], "intercept");
    assert_eq!(order_get(&result, "1"), Some("y"));
    assert_eq!(order_get(&result, "2"), Some("intercept"));
    assert_eq!(result.metadata.has_intercept, true);
}

#[test]
fn test_intercept_only_model() {
    let formula = "y ~ 1";
    let result = parse_formula(formula).expect("Should parse successfully");
    let all_columns = columns_of(&result);
    assert!(
        all_columns.iter().any(|col| *col == "intercept"),
        "Intercept should be present in intercept-only model"
    );
    let expected_columns = vec!["y", "intercept"];
    assert_eq!(all_columns, expected_columns);
    assert_eq!(order_get(&result, "1"), Some("y"));
    assert_eq!(order_get(&result, "2"), Some("intercept"));
    assert_eq!(result.metadata.has_intercept, true);
    assert_eq!(result.columns.len(), 1, "Should only have response variable in columns");
    assert!(result.column("y").is_some(), "Should have response variable 'y'");
}

#[test]
fn test_intercept_only_model_with_family() {
    let formula = "y ~ 1, family = gaussian";
    let result = parse_formula(formula).expect("Should parse successfully");
    let all_columns = columns_of(&result);
    assert!(
        all_columns.iter().any(|col| *col == "intercept"),
        "Intercept should be present in intercept-only model with family"
    );
    assert_eq!(result.metadata.family.as_deref(), Some("gaussian"));
    assert_eq!(result.metadata.has_intercept, true);
}

#[test]
fn test_no_intercept_model() {
    let formula = "y ~ 0";
    let result = parse_formula(formula).expect("Should parse successfully");
    let all_columns = columns_of(&result);
    assert!(
        !all_columns.iter().any(|col| *col == "intercept"),
        "Intercept should NOT be present in y ~ 0 model"
    );
    let expected_columns = vec!["y"];
    assert_eq!(all_columns, expected_columns);
    assert_eq!(order_get(&result, "1"), Some("y"));
    assert_eq!(
        result.all_generated_columns_formula_order.len(),
        1,
        "Should only have response variable in formula order"
    );
    assert_eq!(result.metadata.has_intercept, false);
}

#[test]
fn test_invalid_intercept_syntax() {
    let formula = "y ~ 1 - 1";
    let result = parse_formula(formula);
    assert!(result.is_err(), "y ~ 1 - 1 should fail because it's contradictory syntax");
    if let Err(e) = result {
        let error_msg = e.message();
        assert!(
            error_msg.contains("cannot have both intercept term and intercept removal"),
            "Error should mention contradictory syntax"
        );
    }
}

#[test]
fn test_invalid_zero_combination() {
    let formula = "y ~ 0 + 1";
    let result = parse_formula(formula);
    assert!(result.is_err(), "y ~ 0 + 1 should fail because 0 cannot be combined with other terms");
    if let Err(e) = result {
        let error_msg = e.message();
        assert!(
            error_msg.contains("zero term (0) cannot be combined with other terms"),
            "Error should mention zero term combination restriction"
        );
    }
}

#[test]
fn test_multivariate_response_basic() {
    let formula = "bind(y1, y2) ~ x";
    let result = parse_formula(formula).expect("Should parse successfully");
    assert!(result.column("y1").is_some(), "Should contain y1 response variable");
    assert!(result.column("y2").is_some(), "Should contain y2 response variable");
    let y1_info = result.column("y1").expect("Should have y1");
    assert!(y1_info.roles.contains(&VariableRole::Response), "y1 should have Response role");
    let y2_info = result.column("y2").expect("Should have y2");
    assert!(y2_info.roles.contains(&VariableRole::Response), "y2 should have Response role");
    assert_eq!(y1_info.id, 1);
    assert_eq!(y2_info.id, 1);
    let column_names = columns_of(&result);
    assert!(column_names.contains(&"y1"), "Should contain y1 in generated columns");
    assert!(column_names.contains(&"y2"), "Should contain y2 in generated columns");
    assert!(column_names.contains(&"x"), "Should contain x in generated columns");
    assert!(column_names.contains(&"intercept"), "Should contain intercept in generated columns");
}

#[test]
fn test_multivariate_response_three_variables() {
    let formula = "bind(y1, y2, y3) ~ x + z";
    let result = parse_formula(formula).expect("Should parse successfully");
    for var_name in &["y1", "y2", "y3"] {
        assert!(result.column(var_name).is_some(), "Should contain {} response variable", var_name);
        let var_info = result.column(var_name).expect(&format!("Should have {}", var_name));
        assert!(
            var_info.roles.contains(&VariableRole::Response),
            "{} should have Response role",
            var_name
        );
        assert_eq!(var_info.id, 1);
    }
    let x_info = result.column("x").expect("Should have x");
    let z_info = result.column("z").expect("Should have z");
    assert_eq!(x_info.id, 2);
    assert_eq!(z_info.id, 3);
}

#[test]
fn test_multivariate_response_with_family() {
    let formula = "bind(y1, y2) ~ x, family = gaussian";
    let result = parse_formula(formula).expect("Should parse successfully");
    assert_eq!(result.metadata.family.as_deref(), Some("gaussian"));
    assert!(result.column("y1").is_some(), "Should contain y1 response variable");
    assert!(result.column("y2").is_some(), "Should contain y2 response variable");
    assert!(result.column("x").is_some(), "Should contain x predictor variable");
}

#[test]
fn test_multivariate_response_invalid_single_variable() {
    let formula = "bind(y1) ~ x";
    let result = parse_formula(formula);
    assert!(result.is_err(), "bind() with single variable should fail");
    if let Err(e) = result {
        let error_msg = e.message();
        assert!(
            error_msg.contains("bind() requires at least 2 variables"),
            "Error should mention bind() requires at least 2 variables"
        );
    }
}

#[test]
fn ids_follow_first_appearance() {
    let m = parse_formula("y ~ b + a + poly(w, 2) + b:d").unwrap();
    let names: Vec<(&str, u32)> = m.columns.iter().map(|(n, v)| (n.as_str(), v.id)).collect();
    assert_eq!(names, vec![("y", 1), ("b", 2), ("a", 3), ("w", 4), ("d", 5)]);
    let ones = m.columns.iter().filter(|(_, v)| v.id == 1).count();
    assert_eq!(ones, 1);
}

#[test]
fn column_count_matches_generated_columns() {
    for f in ["y ~ x + poly(x, 3) + log(z)", "y ~ x - 1", "y ~ 0", "bind(a, b) ~ u*v"] {
        let m = parse_formula(f).unwrap();
        let total: usize = m.columns.iter().map(|(_, v)| v.generated_columns.len()).sum();
        let extra = if m.metadata.has_intercept { 1 } else { 0 };
        assert_eq!(m.all_generated_columns.len(), total + extra, "{}", f);
        assert_eq!(m.all_generated_columns_formula_order.len(), m.all_generated_columns.len());
    }
}

#[test]
fn reparsing_the_echoed_formula_gives_the_same_document() {
    for f in ["y ~ x + (x || group)", "bind(y1, y2) ~ poly(x, 2), family = poisson", "y ~ 1"] {
        let first = parse_formula(f).unwrap();
        assert_eq!(first.formula, f);
        let second = parse_formula(&first.formula).unwrap();
        assert_eq!(first, second);
    }
}

#[test]
fn two_plain_terms_scenario() {
    let m = parse_formula("y ~ x + z").unwrap();
    assert!(m.metadata.has_intercept);
    assert_eq!(m.metadata.family, None);
    assert_eq!(columns_of(&m), vec!["y", "intercept", "x", "z"]);
}

#[test]
fn minus_one_scenario() {
    let m = parse_formula("y ~ x - 1").unwrap();
    assert!(!m.metadata.has_intercept);
    assert!(!m.all_generated_columns.iter().any(|c| c == "intercept"));
}

#[test]
fn poly_transformation_scenario() {
    let m = parse_formula("y ~ poly(x, 2)").unwrap();
    let t = &m.column("x").unwrap().transformations[0];
    assert_eq!(t.function, "poly");
    assert_eq!(
        t.parameters,
        vec![
            ("degree".to_string(), ParamValue::Integer(2)),
            ("orthogonal".to_string(), ParamValue::Bool(true)),
        ]
    );
    assert_eq!(t.generates_columns, vec!["x_poly_1".to_string(), "x_poly_2".to_string()]);
}

#[test]
fn uncorrelated_random_effect_scenario() {
    let m = parse_formula("y ~ x + (x || group)").unwrap();
    assert!(m.metadata.is_random_effects_model);
    assert!(m.metadata.has_uncorrelated_slopes_and_intercepts);
    assert!(m.column("group").unwrap().roles.contains(&VariableRole::GroupingVariable));
    let summary = m.column("group").unwrap().random_effects.last().unwrap();
    assert_eq!(summary.kind, "grouping");
    assert!(!summary.correlated);
    assert!(summary.has_intercept);
    assert_eq!(summary.variables, Some(vec!["x".to_string()]));
    let slope = &m.column("x").unwrap().random_effects[0];
    assert_eq!(slope.kind, "slope");
    assert_eq!(slope.grouping_variable, "group");
}

#[test]
fn bind_scenario() {
    let m = parse_formula("bind(y1, y2) ~ x").unwrap();
    assert_eq!(m.column("y1").unwrap().id, 1);
    assert_eq!(m.column("y2").unwrap().id, 1);
    assert!(m.column("y1").unwrap().roles.contains(&VariableRole::Response));
    assert!(m.column("y2").unwrap().roles.contains(&VariableRole::Response));
    assert_eq!(m.metadata.response_variable_count, 2);
}

#[test]
fn dangling_plus_scenario() {
    let mut p = Parser::new("y ~ x +").unwrap();
    let r = p.parse_formula();
    match r {
        Err(ParseError::Unexpected { found, .. }) => assert_eq!(found, None),
        Err(ParseError::Eoi) => {}
        _ => panic!("expected an end-of-input failure"),
    }
    assert_eq!(p.pos, 2);
    assert_eq!(p.tokens[p.pos].1, "x");
}

#[test]
fn single_bind_name_scenario() {
    match parse_formula("bind(y1) ~ x") {
        Err(ParseError::Syntax(m)) => assert!(m.contains("at least 2")),
        _ => panic!("expected a syntax error"),
    }
}

#[test]
fn response_is_single_for_plain_name() {
    let mut p = Parser::new("y ~ x, family = binomial").unwrap();
    let (resp, terms, hi, fam) = p.parse_formula().unwrap();
    assert_eq!(resp, Response::Single("y".to_string()));
    assert_eq!(terms.len(), 1);
    assert!(hi);
    assert_eq!(fam, Some(Family::Binomial));
}

#[test]
fn trailing_tokens_are_rejected() {
    match parse_formula("y ~ x z") {
        Err(ParseError::Unexpected { expected, found }) => {
            assert_eq!(expected, "end of input");
            assert_eq!(found, Some(fiasto::lexer::Token::ColumnName));
        }
        _ => panic!("expected an unexpected-token error"),
    }
}

#[test]
fn interaction_records_both_sides() {
    let m = parse_formula("y ~ x:z").unwrap();
    let x = m.column("x").unwrap();
    let z = m.column("z").unwrap();
    assert!(x.roles.contains(&VariableRole::FixedEffect));
    assert!(z.roles.contains(&VariableRole::FixedEffect));
    assert_eq!(x.interactions[0].with, vec!["z".to_string()]);
    assert_eq!(x.interactions[0].context, "fixed_effects");
    assert_eq!(z.interactions[0].with, vec!["x".to_string()]);
    assert_eq!(x.generated_columns, vec!["x".to_string(), "x_z".to_string()]);
}

#[test]
fn unknown_function_uses_positional_parameters() {
    let m = parse_formula("y ~ lag(x, 3)").unwrap();
    let t = &m.column("x").unwrap().transformations[0];
    assert_eq!(t.function, "lag");
    assert_eq!(
        t.parameters,
        vec![
            ("arg_0".to_string(), ParamValue::Text("x".to_string())),
            ("arg_1".to_string(), ParamValue::Integer(3)),
        ]
    );
    assert_eq!(t.generates_columns, vec!["x_lag".to_string()]);
    assert_eq!(m.column("x").unwrap().generated_columns, vec!["x_lag".to_string()]);
}

#[test]
fn log_transformation_has_no_parameters() {
    let m = parse_formula("y ~ log(income)").unwrap();
    let t = &m.column("income").unwrap().transformations[0];
    assert!(t.parameters.is_empty());
    assert_eq!(t.generates_columns, vec!["income_log".to_string()]);
}

#[test]
fn random_effect_groupings_are_named() {
    let m = parse_formula("y ~ (1 | a/b) + (1 | k:d) + (1 | mm(e, f)) + (0 + x | gr(g, cor = FALSE))").unwrap();
    assert!(m.column("a/b").is_some());
    assert!(m.column("k:d").is_some());
    assert!(m.column("e_f").is_some());
    let g = m.column("g").unwrap();
    assert!(!g.random_effects.last().unwrap().has_intercept);
    assert!(m.metadata.is_random_effects_model);
    assert!(!m.metadata.has_uncorrelated_slopes_and_intercepts);
}

#[test]
fn family_names_are_lower_case() {
    let m = parse_formula("y ~ x, family = poisson").unwrap();
    assert_eq!(m.metadata.family.as_deref(), Some("poisson"));
}

#[test]
fn lex_error_is_reported_with_its_text() {
    match parse_formula("y ~ x $ z") {
        Err(ParseError::Lex(s)) => assert_eq!(s, "$"),
        _ => panic!("expected a lexing error"),
    }
}

#[test]
fn analyze_registers_a_hand_built_tree() {
    let terms = vec![
        Term::Column("x".to_string()),
        Term::Function {
            name: "scale".to_string(),
            args: vec![Argument::Ident("z".to_string())],
        },
        Term::RandomEffect(RandomEffect {
            terms: vec![RandomTerm::Column("1".to_string()), RandomTerm::Column("x".to_string())],
            grouping: Grouping::Simple("g".to_string()),
            correlation: CorrelationType::Correlated,
            correlation_id: None,
        }),
    ];
    let m = fiasto::analyze(
        "y ~ x + scale(z) + (1 + x | g)",
        &Response::Single("y".to_string()),
        &terms,
        true,
        Some(Family::Gaussian),
    )
    .unwrap();
    let ids: Vec<(&str, u32)> = m.columns.iter().map(|(n, v)| (n.as_str(), v.id)).collect();
    assert_eq!(ids, vec![("y", 1), ("x", 2), ("z", 3), ("g", 4)]);
    assert_eq!(columns_of(&m), vec!["y", "intercept", "x", "z_scale", "g"]);
    assert!(m.column("x").unwrap().roles.contains(&VariableRole::Identity));
    assert!(m.column("x").unwrap().roles.contains(&VariableRole::RandomEffect));
    assert!(m.column("z").unwrap().roles.contains(&VariableRole::FixedEffect));
    assert!(m.column("g").unwrap().roles.contains(&VariableRole::GroupingVariable));
    assert!(m.metadata.is_random_effects_model);
    assert!(!m.metadata.has_uncorrelated_slopes_and_intercepts);
    assert_eq!(m.metadata.family.as_deref(), Some("gaussian"));
    let summary = m.column("g").unwrap().random_effects.last().unwrap();
    assert!(summary.has_intercept);
    assert!(summary.correlated);
}

#[test]
fn cross_parameter_block() {
    let mut p = Parser::new("y ~ x + (1 |2| group)").unwrap();
    let (_, terms, _, _) = p.parse_formula().unwrap();
    match &terms[1] {
        Term::RandomEffect(re) => {
            assert_eq!(re.correlation, CorrelationType::CrossParameter("2".to_string()));
            assert_eq!(re.correlation_id, Some("2".to_string()));
        }
        _ => panic!("expected a random-effects block"),
    }
    assert!(parse_formula("y ~ (1 |2 group)").is_err());
}
