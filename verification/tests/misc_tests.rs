use io_lang::ast::ASTNode;
use io_lang::compiler::count_ast_nodes;
use io_lang::debug::breakpoint::SourceLocation;
use io_lang::debug::stepping::{after_step, step_out_goal, step_over_goal, StepAction, StepGoal};
use io_lang::doc::generator::{join_path, DocumentationGenerator};
use io_lang::module::graph::DependencyGraph;
use io_lang::semantic::scope::Scope;
use io_lang::text::usize_to_string;

fn loc(line: usize) -> SourceLocation {
    SourceLocation { file: "m.io".to_string(), line, column: 0 }
}

#[test]
fn stepping_over_stops_back_at_the_same_depth() {
    let goal = step_over_goal(3);
    assert_eq!(after_step(&goal, true, 4, &loc(1), false), StepAction::StepAgain);
    assert_eq!(after_step(&goal, true, 3, &loc(2), false), StepAction::Stop);
    assert_eq!(after_step(&goal, false, 9, &loc(2), false), StepAction::Stop);
}

#[test]
fn stepping_out_stops_one_frame_up() {
    let goal = step_out_goal(3);
    assert_eq!(after_step(&goal, true, 3, &loc(1), false), StepAction::StepAgain);
    assert_eq!(after_step(&goal, true, 2, &loc(1), false), StepAction::Stop);
    assert!(matches!(step_out_goal(0), StepGoal::DepthAtMost(0)));
}

#[test]
fn running_to_a_location_stops_there() {
    let goal = StepGoal::Location(loc(5));
    assert_eq!(after_step(&goal, true, 1, &loc(4), false), StepAction::StepAgain);
    assert_eq!(after_step(&goal, true, 1, &loc(5), false), StepAction::Stop);
}

#[test]
fn paths_join_with_one_separator() {
    assert_eq!(join_path("docs", "templates"), "docs/templates");
    assert_eq!(join_path("docs/", "templates"), "docs/templates");
    assert_eq!(join_path("", "templates"), "templates");
    let g = DocumentationGenerator::new("out");
    assert_eq!(g.template_dir, "out/templates");
}

#[test]
fn graph_with_a_cycle_fails_validation() {
    let mut g = DependencyGraph::new();
    g.add_node("a".to_string());
    g.add_node("b".to_string());
    g.add_edge("a".to_string(), "b".to_string()).unwrap();
    assert!(g.validate().is_ok());
    g.add_edge("b".to_string(), "a".to_string()).unwrap();
    assert_eq!(g.validate().unwrap_err().message(), "Cyclic dependency detected");
    assert_eq!(g.add_edge("a".to_string(), "z".to_string()).unwrap_err().message(), "Node not found");
}

#[test]
fn node_count_covers_the_tree() {
    let ast = ASTNode::Program(vec![ASTNode::BinaryOperation {
        left: Box::new(ASTNode::IntegerLiteral(1)),
        operator: "+".to_string(),
        right: Box::new(ASTNode::IntegerLiteral(2)),
    }]);
    assert_eq!(count_ast_nodes(&ast), 4);
}

#[test]
fn decimal_text_reads_back() {
    for n in [0usize, 7, 10, 12345, usize::MAX] {
        assert_eq!(usize_to_string(n).parse::<usize>().unwrap(), n);
    }
    assert_eq!(usize_to_string(120), "120");
}

#[test]
fn inner_scope_sees_the_outer_one() {
    let mut outer = Scope::new();
    outer.define("x", "int", false).unwrap();
    let mut inner = Scope::with_parent(outer);
    inner.define("x", "string", true).unwrap();
    assert_eq!(inner.lookup("x").unwrap().ty_name, "string");
    let outer = inner.take_parent().unwrap();
    assert_eq!(outer.lookup("x").unwrap().ty_name, "int");
}
