use io_lang::ast::{ASTNode, BinaryOperator, Parameter};
use io_lang::semantic::analyzer::SemanticAnalyzer;
use io_lang::codegen::lowering::{
    lower_binary_op, pass_plan, ComparePredicate, Instruction, IntOpcode, Pass,
};
use io_lang::codegen::OptimizationLevel;
use io_lang::lexer::Lexer;
use io_lang::macro_system::{MacroDefinition, MacroExpander};
use io_lang::semantic::{analyze, validate_control_flow};
use io_lang::token::TokenKind;

#[test]
fn lexer_splits_a_declaration() {
    let mut lexer = Lexer::new("let x = 42;");
    let tokens = lexer.tokenize().unwrap();
    let kinds: Vec<TokenKind> = tokens.iter().map(|t| t.kind).collect();
    assert_eq!(
        kinds,
        vec![TokenKind::Let, TokenKind::Identifier, TokenKind::Equal, TokenKind::Number, TokenKind::Semicolon, TokenKind::EOF]
    );
    assert_eq!(tokens[3].value, "42");
    assert_eq!(tokens[3].position, 8);
}

#[test]
fn lexer_names_a_stray_character() {
    let mut lexer = Lexer::new("x @");
    let err = lexer.tokenize().unwrap_err();
    assert_eq!(err.message(), "Lexer error at position 2: Unexpected character: @");
}

fn square_macro() -> MacroDefinition {
    MacroDefinition {
        name: "square".to_string(),
        params: vec!["x".to_string()],
        body: vec![ASTNode::BinaryOperation {
            left: Box::new(ASTNode::Identifier("x".to_string())),
            operator: "*".to_string(),
            right: Box::new(ASTNode::Identifier("x".to_string())),
        }],
    }
}

#[test]
fn macro_call_is_replaced_by_its_body() {
    let mut expander = MacroExpander::new(10);
    expander.register_macro(square_macro()).unwrap();
    let call = ASTNode::FunctionCall { name: "square".to_string(), arguments: vec![ASTNode::IntegerLiteral(3)] };
    let expanded = expander.expand(&call).unwrap();
    assert_eq!(
        expanded,
        ASTNode::Block(vec![ASTNode::BinaryOperation {
            left: Box::new(ASTNode::IntegerLiteral(3)),
            operator: "*".to_string(),
            right: Box::new(ASTNode::IntegerLiteral(3)),
        }])
    );
}

#[test]
fn macro_errors_are_named() {
    let mut expander = MacroExpander::new(10);
    expander.register_macro(square_macro()).unwrap();
    let err = expander.register_macro(square_macro()).unwrap_err();
    assert_eq!(err.message(), "Macro 'square' is already defined");
    let call = ASTNode::FunctionCall {
        name: "square".to_string(),
        arguments: vec![ASTNode::IntegerLiteral(3), ASTNode::IntegerLiteral(4)],
    };
    assert_eq!(expander.expand(&call).unwrap_err().message(), "Macro 'square' expects 1 arguments but got 2");
}

#[test]
fn expansion_without_depth_is_refused() {
    let mut expander = MacroExpander::new(0);
    let err = expander.expand(&ASTNode::IntegerLiteral(1)).unwrap_err();
    assert_eq!(err.message(), "Maximum macro expansion depth exceeded");
}

#[test]
fn control_flow_rules() {
    assert_eq!(validate_control_flow(&ASTNode::Break).unwrap_err().message(), "Break statement outside loop");
    let ok_loop = ASTNode::While { condition: Box::new(ASTNode::BooleanLiteral(true)), body: vec![ASTNode::Break] };
    assert!(validate_control_flow(&ok_loop).is_ok());
    assert_eq!(
        validate_control_flow(&ASTNode::Return(None)).unwrap_err().message(),
        "Return statement outside function"
    );
}

#[test]
fn semantic_analysis_needs_a_program() {
    assert_eq!(analyze(&ASTNode::IntegerLiteral(1)).unwrap_err().message(), "Expected program root");
    assert!(analyze(&ASTNode::Program(vec![])).is_ok());
}

#[test]
fn operators_lower_to_instructions() {
    let add = lower_binary_op(&BinaryOperator::Add).unwrap();
    assert_eq!(add.instruction, Instruction::Int(IntOpcode::Add));
    assert_eq!(add.name, "addtmp");
    let lt = lower_binary_op(&BinaryOperator::LessThan).unwrap();
    assert_eq!(lt.instruction, Instruction::CompareExtend(ComparePredicate::SignedLess));
    assert_eq!(lower_binary_op(&BinaryOperator::And).unwrap_err().message(), "Unsupported binary operator");
}

#[test]
fn pass_plans_by_level() {
    assert_eq!(pass_plan(OptimizationLevel::Disabled, false), vec![Pass::BasicAliasAnalysis, Pass::TypeBasedAliasAnalysis]);
    assert_eq!(pass_plan(OptimizationLevel::Less, false).len(), 6);
    assert!(pass_plan(OptimizationLevel::Aggressive, false).contains(&Pass::AggressiveDce));
}

#[test]
fn source_text_parses_into_a_program() {
    let program = io_lang::compiler::parse_source("fn main() { }").unwrap();
    match program {
        ASTNode::Program(nodes) => {
            assert_eq!(nodes.len(), 1);
            assert!(matches!(&nodes[0], ASTNode::Function { name, .. } if name == "main"));
        }
        _ => panic!("expected a program"),
    }
    let err = io_lang::compiler::parse_source("fn main() { @ }").unwrap_err();
    assert_eq!(err.message(), "Lexer error at position 12: Unexpected character: @");
}

fn int_lit(v: i64) -> ASTNode {
    ASTNode::IntegerLiteral(v)
}

fn declare(name: &str, value: ASTNode, is_mutable: bool) -> ASTNode {
    ASTNode::VariableDeclaration {
        name: name.to_string(),
        type_annotation: None,
        value: Box::new(value),
        is_mutable,
    }
}

#[test]
fn test_analyze_block_scope_closes() {
    let program = ASTNode::Program(vec![
        ASTNode::Block(vec![declare("x", int_lit(1), false)]),
        ASTNode::Identifier("x".to_string()),
    ]);
    assert_eq!(analyze(&program).unwrap_err().message(), "Undefined variable: x");
}

#[test]
fn test_analyze_redefinition_in_same_scope() {
    let program = ASTNode::Program(vec![declare("x", int_lit(1), false), declare("x", int_lit(2), false)]);
    assert_eq!(analyze(&program).unwrap_err().message(), "Symbol 'x' already defined in current scope");
    let shadowed = ASTNode::Program(vec![
        declare("x", int_lit(1), false),
        ASTNode::Block(vec![declare("x", int_lit(2), false)]),
    ]);
    assert!(analyze(&shadowed).is_ok());
}

#[test]
fn test_analyze_immutable_assignment() {
    let assign = ASTNode::Assignment {
        target: Box::new(ASTNode::Identifier("x".to_string())),
        value: Box::new(int_lit(2)),
    };
    let program = ASTNode::Program(vec![declare("x", int_lit(1), false), assign]);
    assert_eq!(analyze(&program).unwrap_err().message(), "Cannot assign to immutable variable x");
    let assign2 = ASTNode::Assignment {
        target: Box::new(ASTNode::Identifier("y".to_string())),
        value: Box::new(int_lit(2)),
    };
    let ok = ASTNode::Program(vec![declare("y", int_lit(1), true), assign2]);
    assert!(analyze(&ok).is_ok());
}

#[test]
fn test_analyze_function_parameters_and_return() {
    let f = ASTNode::Function {
        name: "id".to_string(),
        params: vec![Parameter { name: "a".to_string(), type_annotation: "int".to_string() }],
        return_type: Some("int".to_string()),
        body: vec![ASTNode::Return(Some(Box::new(ASTNode::Identifier("a".to_string()))))],
        is_async: false,
    };
    let mut analyzer = SemanticAnalyzer::new();
    let t = analyzer.analyze(&f).unwrap();
    assert_eq!(t.to_string(), "fn(int) -> int");
    let bad = ASTNode::Function {
        name: "g".to_string(),
        params: vec![Parameter { name: "a".to_string(), type_annotation: "foo".to_string() }],
        return_type: None,
        body: vec![],
        is_async: false,
    };
    assert_eq!(analyzer.analyze(&bad).unwrap_err().message(), "Unknown type: foo");
    let twice = ASTNode::Function {
        name: "h".to_string(),
        params: vec![
            Parameter { name: "a".to_string(), type_annotation: "int".to_string() },
            Parameter { name: "a".to_string(), type_annotation: "bool".to_string() },
        ],
        return_type: None,
        body: vec![],
        is_async: false,
    };
    assert_eq!(analyzer.analyze(&twice).unwrap_err().message(), "Symbol 'a' already defined in current scope");
    let outside = ASTNode::Identifier("a".to_string());
    assert_eq!(analyzer.analyze(&outside).unwrap_err().message(), "Undefined variable: a");
}

#[test]
fn test_analyze_loops_and_arrays() {
    let lp = ASTNode::While { condition: Box::new(ASTNode::BooleanLiteral(true)), body: vec![ASTNode::Break] };
    assert!(analyze(&ASTNode::Program(vec![lp])).is_ok());
    let bad_cond = ASTNode::While { condition: Box::new(int_lit(1)), body: vec![] };
    assert_eq!(
        analyze(&ASTNode::Program(vec![bad_cond])).unwrap_err().message(),
        "While condition must be a boolean expression"
    );
    let mixed = ASTNode::ArrayLiteral(vec![int_lit(1), ASTNode::BooleanLiteral(true)]);
    assert_eq!(
        analyze(&ASTNode::Program(vec![mixed])).unwrap_err().message(),
        "Array elements must have same type"
    );
}

#[test]
fn power_lowers_to_the_pow_intrinsic() {
    let l = lower_binary_op(&BinaryOperator::Power).unwrap();
    assert_eq!(l.instruction, Instruction::PowCall);
    assert_eq!(l.name, "powtmp");
    assert_eq!(BinaryOperator::from_symbol("**"), Some(BinaryOperator::Power));
    assert_eq!(BinaryOperator::Power.symbol(), "**");
    assert_eq!(lower_binary_op(&BinaryOperator::And).unwrap_err().message(), "Unsupported binary operator");
}
