use io_lang::ast::ASTNode;
use io_lang::optimizer::const_fold::ConstantFolder;

#[test]
fn test_constant_folding() {
    let mut folder = ConstantFolder::new();

    let ast = ASTNode::BinaryOperation {
        left: Box::new(ASTNode::IntegerLiteral(2)),
        operator: "+".to_string(),
        right: Box::new(ASTNode::IntegerLiteral(3)),
    };

    let result = folder.fold(&ast).unwrap();
    assert_eq!(result, ASTNode::IntegerLiteral(5));

    let ast = ASTNode::BinaryOperation {
        left: Box::new(ASTNode::BooleanLiteral(true)),
        operator: "&&".to_string(),
        right: Box::new(ASTNode::BooleanLiteral(false)),
    };

    let result = folder.fold(&ast).unwrap();
    assert_eq!(result, ASTNode::BooleanLiteral(false));
}

#[test]
fn test_if_constant_folding() {
    let mut folder = ConstantFolder::new();

    let ast = ASTNode::IfExpression {
        condition: Box::new(ASTNode::BooleanLiteral(true)),
        then_branch: Box::new(ASTNode::IntegerLiteral(1)),
        else_branch: Some(Box::new(ASTNode::IntegerLiteral(2))),
    };

    let result = folder.fold(&ast).unwrap();
    assert_eq!(result, ASTNode::IntegerLiteral(1));
}

#[test]
fn test_array_constant_folding() {
    let mut folder = ConstantFolder::new();

    let ast = ASTNode::ArrayIndex {
        array: Box::new(ASTNode::ArrayLiteral(vec![
            ASTNode::IntegerLiteral(1),
            ASTNode::IntegerLiteral(2),
        ])),
        index: Box::new(ASTNode::IntegerLiteral(0)),
    };

    let result = folder.fold(&ast).unwrap();
    assert_eq!(result, ASTNode::IntegerLiteral(1));
}

#[test]
fn test_function_call_folding() {
    let mut folder = ConstantFolder::new();

    let ast = ASTNode::FunctionCall {
        name: "len".to_string(),
        arguments: vec![ASTNode::ArrayLiteral(vec![
            ASTNode::IntegerLiteral(1),
            ASTNode::IntegerLiteral(2),
        ])],
    };

    let result = folder.fold(&ast).unwrap();
    assert_eq!(result, ASTNode::IntegerLiteral(2));
}

#[test]
fn integer_operators_follow_checked_arithmetic() {
    let folder = ConstantFolder::new();
    assert_eq!(folder.evaluate_binary_op("*", 6, 7), Some(42));
    assert_eq!(folder.evaluate_binary_op("/", 7, 0), None);
    assert_eq!(folder.evaluate_binary_op("+", i64::MAX, 1), None);
    assert_eq!(folder.evaluate_bool_op("||", false, true), Some(true));
}

#[test]
fn a_false_condition_without_else_branch_is_kept() {
    let mut folder = ConstantFolder::new();
    let ast = ASTNode::IfExpression {
        condition: Box::new(ASTNode::BooleanLiteral(false)),
        then_branch: Box::new(ASTNode::IntegerLiteral(1)),
        else_branch: Some(Box::new(ASTNode::IntegerLiteral(2))),
    };
    assert_eq!(folder.fold(&ast).unwrap(), ASTNode::IntegerLiteral(2));
}
