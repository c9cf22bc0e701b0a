use io_lang::ast::ASTNode;
use io_lang::pattern::{type_name_text, types_compatible, MatchType, Pattern, PatternMatcher};
use io_lang::semantic::scope::Scope;

fn point_matcher() -> PatternMatcher {
    let mut m = PatternMatcher::new(Scope::new());
    m.declare_type(
        "Point",
        MatchType::Constructor { name: "Point".to_string(), fields: vec![MatchType::Integer, MatchType::Integer] },
    );
    m
}

fn point_call(a: i64, b: i64) -> ASTNode {
    ASTNode::FunctionCall {
        name: "Point".to_string(),
        arguments: vec![ASTNode::IntegerLiteral(a), ASTNode::IntegerLiteral(b)],
    }
}

#[test]
fn variable_binds_once() {
    let mut m = PatternMatcher::new(Scope::new());
    let x = Pattern::Variable("x".to_string());
    assert!(m.match_pattern(&x, &ASTNode::IntegerLiteral(1), &MatchType::Integer).is_ok());
    let err = m.match_pattern(&x, &ASTNode::IntegerLiteral(2), &MatchType::Integer).unwrap_err();
    assert_eq!(err.message(), "Symbol 'x' already defined in current scope");
}

#[test]
fn literal_pattern_needs_an_equal_value() {
    let mut m = PatternMatcher::new(Scope::new());
    let p = Pattern::Literal(ASTNode::IntegerLiteral(3));
    assert!(m.match_pattern(&p, &ASTNode::IntegerLiteral(3), &MatchType::Integer).is_ok());
    let err = m.match_pattern(&p, &ASTNode::IntegerLiteral(4), &MatchType::Integer).unwrap_err();
    assert_eq!(err.message(), "Pattern match failed");
    assert!(m.match_pattern(&Pattern::Wildcard, &ASTNode::IntegerLiteral(4), &MatchType::Integer).is_ok());
}

#[test]
fn constructor_pattern_matches_its_fields() {
    let mut m = point_matcher();
    let p = Pattern::Constructor {
        name: "Point".to_string(),
        fields: vec![Pattern::Variable("a".to_string()), Pattern::Wildcard],
    };
    let t = m.lookup_type("Point").unwrap();
    assert!(m.match_pattern(&p, &point_call(1, 2), &t).is_ok());
}

#[test]
fn constructor_pattern_with_wrong_arity_fails() {
    let mut m = point_matcher();
    let p = Pattern::Constructor { name: "Point".to_string(), fields: vec![Pattern::Wildcard] };
    let t = m.lookup_type("Point").unwrap();
    let err = m.match_pattern(&p, &point_call(1, 2), &t).unwrap_err();
    assert_eq!(err.message(), "Constructor Point expects 1 arguments, but got 2");
}

#[test]
fn unknown_constructor_is_reported() {
    let mut m = PatternMatcher::new(Scope::new());
    let p = Pattern::Constructor { name: "Point".to_string(), fields: vec![] };
    let err = m.match_pattern(&p, &point_call(1, 2), &MatchType::Unknown).unwrap_err();
    assert_eq!(err.message(), "Unknown constructor: Point");
}

#[test]
fn compatibility_of_types() {
    assert!(types_compatible(&MatchType::Integer, &MatchType::Integer));
    assert!(!types_compatible(&MatchType::Integer, &MatchType::String));
    assert!(types_compatible(&MatchType::Unknown, &MatchType::Boolean));
    assert!(types_compatible(
        &MatchType::Array(Box::new(MatchType::Integer)),
        &MatchType::Array(Box::new(MatchType::Unknown))
    ));
    assert_eq!(type_name_text(&MatchType::Array(Box::new(MatchType::Float))), "Array<Float>");
}

#[test]
fn constructor_field_types_are_listed() {
    let m = point_matcher();
    let t = m.lookup_type("Point").unwrap();
    let fields = m.get_constructor_field_types(&t).unwrap();
    assert_eq!(fields.len(), 2);
    assert!(m.get_constructor_field_types(&MatchType::Integer).is_err());
}
