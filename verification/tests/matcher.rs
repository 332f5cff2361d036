use apex::detect::matcher::{match_pattern, parse_pattern, PatternExpr};

#[test]
fn literal_match() {
    let pattern = parse_pattern("eval(");
    assert!(match_pattern(&pattern, "x = eval(user_input)").is_some());
}

#[test]
fn literal_no_match() {
    let pattern = parse_pattern("eval(");
    assert!(match_pattern(&pattern, "print(x)").is_none());
}

#[test]
fn metavar_captures_token() {
    let pattern = parse_pattern("$FUNC");
    let bindings = match_pattern(&pattern, "eval user_input").unwrap();
    assert_eq!(bindings.get("FUNC").unwrap(), "eval");
}

#[test]
fn sequence_matches() {
    let pattern = parse_pattern("$FUNC($ARG)");
    assert!(match_pattern(&pattern, "result = eval(user_input)").is_some());
}

#[test]
fn sequence_captures_bindings() {
    let pattern = parse_pattern("$FUNC($ARG)");
    let bindings = match_pattern(&pattern, "result = eval(user_input)").unwrap();
    assert_eq!(bindings.get("FUNC").unwrap(), "eval");
    assert_eq!(bindings.get("ARG").unwrap(), "user_input");
}

#[test]
fn sequence_no_match() {
    let pattern = parse_pattern("$FUNC($ARG)");
    assert!(match_pattern(&pattern, "just a plain string").is_none());
}

#[test]
fn any_matches_first() {
    let pattern = parse_pattern("{eval | exec}");
    assert!(match_pattern(&pattern, "x = eval()").is_some());
}

#[test]
fn any_matches_second() {
    let pattern = parse_pattern("{eval | exec}");
    assert!(match_pattern(&pattern, "x = exec()").is_some());
}

#[test]
fn any_no_match() {
    let pattern = parse_pattern("{eval | exec}");
    assert!(match_pattern(&pattern, "x = print()").is_none());
}

#[test]
fn parse_literal() {
    let expr = parse_pattern("hello");
    assert_eq!(expr, PatternExpr::Literal("hello".to_string()));
}

#[test]
fn parse_metavar() {
    let expr = parse_pattern("$VAR");
    assert_eq!(expr, PatternExpr::Metavar("VAR".to_string()));
}

#[test]
fn parse_sequence_with_metavar() {
    let expr = parse_pattern("$FUNC($ARG)");
    assert!(matches!(expr, PatternExpr::Sequence(_)));
    if let PatternExpr::Sequence(parts) = expr {
        assert_eq!(parts.len(), 4);
        assert_eq!(parts[0], PatternExpr::Metavar("FUNC".to_string()));
        assert_eq!(parts[1], PatternExpr::Literal("(".to_string()));
        assert_eq!(parts[2], PatternExpr::Metavar("ARG".to_string()));
        assert_eq!(parts[3], PatternExpr::Literal(")".to_string()));
    }
}

#[test]
fn parse_alternatives_and_edge_cases() {
    assert_eq!(
        parse_pattern("{a | $B}"),
        PatternExpr::Any(vec![PatternExpr::Literal("a".to_string()), PatternExpr::Metavar("B".to_string())])
    );
    assert_eq!(parse_pattern(""), PatternExpr::Sequence(vec![]));
    assert_eq!(parse_pattern("$x"), PatternExpr::Literal("$x".to_string()));
    assert_eq!(
        parse_pattern("a.$B_1c"),
        PatternExpr::Sequence(vec![PatternExpr::Literal("a.".to_string()), PatternExpr::Metavar("B_1c".to_string())])
    );
    assert_eq!(parse_pattern("{}"), PatternExpr::Any(vec![PatternExpr::Sequence(vec![])]));
}

#[test]
fn match_escapes_literal_regex_characters() {
    let pattern = parse_pattern("$F(.*)");
    assert!(match_pattern(&pattern, "run(xyz)").is_none());
    assert!(match_pattern(&pattern, "run(.*)").is_some());
    assert!(match_pattern(&parse_pattern("$A"), "   ").is_none());
}
