use io_lang::analysis::CodeAnalyzer;
use io_lang::ast::ASTNode;

fn function(name: &str, body: Vec<ASTNode>) -> ASTNode {
    ASTNode::Function { name: name.to_string(), params: vec![], return_type: None, body, is_async: false }
}

fn branch() -> ASTNode {
    ASTNode::While { condition: Box::new(ASTNode::BooleanLiteral(true)), body: vec![] }
}

fn call(name: &str) -> ASTNode {
    ASTNode::FunctionCall { name: name.to_string(), arguments: vec![] }
}

#[test]
fn simple_function_has_no_warning() {
    let mut analyzer = CodeAnalyzer::new();
    let report = analyzer.analyze(&function("f", vec![branch()])).unwrap();
    assert!(report.warnings().is_empty());
}

#[test]
fn many_branches_raise_the_complexity_warning() {
    let mut analyzer = CodeAnalyzer::new();
    let body: Vec<ASTNode> = (0..11).map(|_| branch()).collect();
    let report = analyzer.analyze(&function("f", body)).unwrap();
    assert_eq!(report.warnings(), &vec!["High cyclomatic complexity: 12 (threshold: 10)".to_string()]);
}

#[test]
fn many_distinct_calls_raise_the_dependency_warning() {
    let mut analyzer = CodeAnalyzer::new();
    let body = vec![call("a"), call("b"), call("c"), call("d"), call("e"), call("f"), call("a")];
    let report = analyzer.analyze(&function("g", body)).unwrap();
    assert_eq!(report.warnings(), &vec!["Function 'g' has too many dependencies: 6".to_string()]);
}

#[test]
fn deep_blocks_raise_the_nesting_warning() {
    let mut analyzer = CodeAnalyzer::new();
    let inner = ASTNode::Block(vec![ASTNode::Block(vec![ASTNode::Block(vec![ASTNode::Block(vec![])])])]);
    let report = analyzer.analyze(&function("h", vec![inner])).unwrap();
    assert_eq!(report.warnings(), &vec!["Excessive nesting detected".to_string()]);
}

#[test]
fn non_function_gets_no_warning() {
    let mut analyzer = CodeAnalyzer::new();
    let report = analyzer.analyze(&ASTNode::IntegerLiteral(1)).unwrap();
    assert!(report.warnings().is_empty());
    assert_eq!(report.metrics().function_count, 0);
}
