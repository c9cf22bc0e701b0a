//! The compiler's options and metrics, and the size of syntax trees.
use vstd::prelude::*;
use crate::ast::{ASTNode, NodeView, node_view, nodes_view, lemma_nodes_view, lemma_nodes_view_push};
use crate::codegen::OptimizationLevel;
use crate::error::{IoError, ErrorKind};
use crate::lexer::{Lexer, lex_from, unexpected_message};
use crate::parser::{Parser, p_program};
use crate::token::TokenKind;

pub mod control_flow;

verus! {

/// The number of nodes of a tree as the compiler counts them: every node counts
/// one, with its children; the target of an assignment is not counted.
pub open spec fn node_count(n: NodeView) -> nat
    decreases n,
{
    match n {
        NodeView::Program(v) => 1 + list_count(v),
        NodeView::Function { body, .. } => 1 + list_count(body),
        NodeView::BinaryOperation { left, right, .. } => 1 + node_count(*left) + node_count(*right),
        NodeView::UnaryOperation { operand, .. } => 1 + node_count(*operand),
        NodeView::If { condition, then_branch, else_branch } => 1 + node_count(*condition) + list_count(then_branch)
            + match else_branch {
            Some(e) => list_count(e),
            None => 0,
        },
        NodeView::IfExpression { condition, then_branch, else_branch } => 1 + node_count(*condition) + node_count(
            *then_branch,
        ) + match else_branch {
            Some(e) => node_count(*e),
            None => 0,
        },
        NodeView::While { condition, body } => 1 + node_count(*condition) + list_count(body),
        NodeView::FunctionCall { arguments, .. } => 1 + list_count(arguments),
        NodeView::Return(v) => 1 + match v {
            Some(e) => node_count(*e),
            None => 0,
        },
        NodeView::Block(v) => 1 + list_count(v),
        NodeView::VariableDeclaration { value, .. } => 1 + node_count(*value),
        NodeView::Assignment { value, .. } => 1 + node_count(*value),
        NodeView::ArrayLiteral(v) => 1 + list_count(v),
        NodeView::ArrayIndex { array, index } => 1 + node_count(*array) + node_count(*index),
        _ => 1,
    }
}

/// The number of nodes of the trees of a list.
pub open spec fn list_count(v: Seq<NodeView>) -> nat
    decreases v,
{
    if v.len() == 0 {
        0
    } else {
        list_count(v.drop_last()) + node_count(v.last())
    }
}

/// The count of the list grows with each tree added.
proof fn lemma_list_count_prefix(v: Seq<NodeView>, i: int)
    requires
        0 <= i <= v.len(),
    ensures
        list_count(v.subrange(0, i)) <= list_count(v),
    decreases v.len() - i,
{
    if i < v.len() {
        lemma_list_count_prefix(v, i + 1);
        assert(v.subrange(0, i + 1).drop_last() =~= v.subrange(0, i));
    } else {
        assert(v.subrange(0, i) =~= v);
    }
}

/// The number of nodes of the trees of a list.
pub fn count_list(v: &Vec<ASTNode>) -> (r: usize)
    requires
        list_count(nodes_view(v@)) <= usize::MAX,
    ensures
        r == list_count(nodes_view(v@)),
    decreases v,
{
    let ghost total = list_count(nodes_view(v@));
    let mut sum: usize = 0;
    let mut i: usize = 0;
    while i < v.len()
        invariant
            i <= v@.len(),
            total == list_count(nodes_view(v@)),
            total <= usize::MAX,
            sum == list_count(nodes_view(v@.subrange(0, i as int))),
        decreases v.len() - i,
    {
        proof {
            assert(v@.subrange(0, i + 1) =~= v@.subrange(0, i as int).push(v@[i as int]));
            lemma_nodes_view_push(v@.subrange(0, i as int), v@[i as int]);
            assert(nodes_view(v@.subrange(0, i + 1)).drop_last() =~= nodes_view(v@.subrange(0, i as int)));
            lemma_nodes_view(v@);
            crate::ast::lemma_nodes_view_prefix(v@, i + 1);
            lemma_list_count_prefix(nodes_view(v@), i + 1);
        }
        let c = count_ast_nodes(&v[i]);
        sum = sum + c;
        i = i + 1;
    }
    proof {
        assert(v@.subrange(0, v@.len() as int) =~= v@);
    }
    sum
}

/// The number of nodes of a tree.
pub fn count_ast_nodes(ast: &ASTNode) -> (r: usize)
    requires
        node_count(ast@) <= usize::MAX,
    ensures
        r == node_count(ast@),
    decreases ast,
{
    match ast {
        ASTNode::Program(v) => 1 + count_list(v),
        ASTNode::Function { body, .. } => 1 + count_list(body),
        ASTNode::BinaryOperation { left, right, .. } => 1 + count_ast_nodes(left) + count_ast_nodes(right),
        ASTNode::UnaryOperation { operand, .. } => 1 + count_ast_nodes(operand),
        ASTNode::If { condition, then_branch, else_branch } => {
            let e = match else_branch {
                Some(e) => count_list(e),
                None => 0,
            };
            1 + count_ast_nodes(condition) + count_list(then_branch) + e
        },
        ASTNode::IfExpression { condition, then_branch, else_branch } => {
            let e = match else_branch {
                Some(e) => count_ast_nodes(e),
                None => 0,
            };
            1 + count_ast_nodes(condition) + count_ast_nodes(then_branch) + e
        },
        ASTNode::While { condition, body } => 1 + count_ast_nodes(condition) + count_list(body),
        ASTNode::FunctionCall { arguments, .. } => 1 + count_list(arguments),
        ASTNode::Return(v) => match v {
            Some(e) => 1 + count_ast_nodes(e),
            None => 1,
        },
        ASTNode::Block(v) => 1 + count_list(v),
        ASTNode::VariableDeclaration { value, .. } => 1 + count_ast_nodes(value),
        ASTNode::Assignment { value, .. } => 1 + count_ast_nodes(value),
        ASTNode::ArrayLiteral(v) => 1 + count_list(v),
        ASTNode::ArrayIndex { array, index } => 1 + count_ast_nodes(array) + count_ast_nodes(index),
        _ => 1,
    }
}

/// The tokens a successful lexing yields, in the parser's view; the end-of-input
/// marker that closes them is not handed to the parser.
pub open spec fn lexed_view(toks: Seq<(TokenKind, Seq<char>, int)>) -> Seq<(TokenKind, Seq<char>)> {
    toks.map_values(|t: (TokenKind, Seq<char>, int)| (t.0, t.1))
}

/// What lexing and then parsing a source text gives: the declarations of the
/// program, or the kind and message of the first error.
pub open spec fn parsed_source(src: Seq<char>) -> Result<Seq<NodeView>, (ErrorKind, Seq<char>)> {
    match lex_from(src, 0) {
        Err(p) => Err((ErrorKind::LexerError, unexpected_message(src, p))),
        Ok(toks) => match p_program(lexed_view(toks), 0, Seq::empty()) {
            Ok(v) => Ok(v),
            Err(m) => Err((ErrorKind::ParserError, m)),
        },
    }
}

/// Lexes a source text and parses its tokens as a program, as
/// [`parsed_source`] says.
pub fn parse_source(source: &str) -> (r: Result<ASTNode, IoError>)
    ensures
        match parsed_source(source@) {
            Ok(v) => r matches Ok(x) && x@ == NodeView::Program(v),
            Err((k, m)) => r matches Err(e) && e.spec_kind() == k && e.spec_message() == m,
        },
{
    let mut lexer = Lexer::new(source);
    let mut tokens = match lexer.tokenize() {
        Ok(t) => t,
        Err(e) => {
            return Err(e);
        },
    };
    tokens.pop();
    proof {
        let toks = lex_from(source@, 0).get_Ok_0();
        assert(crate::parser::toks_view(tokens@) =~= lexed_view(toks));
    }
    let mut parser = Parser::new(tokens);
    match parser.parse_program() {
        Ok(nodes) => {
            proof {
                lemma_nodes_view(nodes@);
            }
            Ok(ASTNode::Program(nodes))
        },
        Err(e) => Err(e),
    }
}

/// How the compiler is asked to work.
#[derive(Debug)]
pub struct CompilerOptions {
    pub optimization_level: OptimizationLevel,
    pub target_triple: Option<String>,
    pub debug_info: bool,
    pub lto_enabled: bool,
    pub metrics_enabled: bool,
}

impl CompilerOptions {
    /// The default options: default optimization, the host target, debug
    /// information, no link-time optimization, no metrics.
    pub fn new() -> (r: Self)
        ensures
            r.optimization_level == OptimizationLevel::Default,
            r.target_triple is None,
            r.debug_info,
            !r.lto_enabled,
            !r.metrics_enabled,
    {
        CompilerOptions {
            optimization_level: OptimizationLevel::Default,
            target_triple: None,
            debug_info: true,
            lto_enabled: false,
            metrics_enabled: false,
        }
    }

    /// The options with the given optimization level.
    pub fn with_optimization_level(self, level: OptimizationLevel) -> (r: Self)
        ensures
            r == (CompilerOptions { optimization_level: level, ..self }),
    {
        CompilerOptions { optimization_level: level, ..self }
    }

    /// The options with the given target triple.
    pub fn with_target_triple(self, triple: &str) -> (r: Self)
        ensures
            r.target_triple matches Some(t) && t@ == triple@,
            r.optimization_level == self.optimization_level,
            r.debug_info == self.debug_info,
            r.lto_enabled == self.lto_enabled,
            r.metrics_enabled == self.metrics_enabled,
    {
        CompilerOptions { target_triple: Some(crate::text::to_owned_string(triple)), ..self }
    }

    /// The options with debug information on or off.
    pub fn with_debug_info(self, enabled: bool) -> (r: Self)
        ensures
            r == (CompilerOptions { debug_info: enabled, ..self }),
    {
        CompilerOptions { debug_info: enabled, ..self }
    }

    /// The options with link-time optimization on or off.
    pub fn with_lto(self, enabled: bool) -> (r: Self)
        ensures
            r == (CompilerOptions { lto_enabled: enabled, ..self }),
    {
        CompilerOptions { lto_enabled: enabled, ..self }
    }

    /// The options with metrics on or off.
    pub fn with_metrics(self, enabled: bool) -> (r: Self)
        ensures
            r == (CompilerOptions { metrics_enabled: enabled, ..self }),
    {
        CompilerOptions { metrics_enabled: enabled, ..self }
    }
}

/// What the compiler measured: the time of each phase in microseconds, and the
/// number of nodes before and after optimization.
#[derive(Debug, Clone, Copy, PartialEq, Eq, Structural)]
pub struct CompilerMetrics {
    pub parse_micros: u64,
    pub optimization_micros: u64,
    pub codegen_micros: u64,
    pub total_nodes: usize,
    pub optimized_nodes: usize,
}

impl CompilerMetrics {
    /// Metrics with every count at zero.
    pub fn new() -> (r: Self)
        ensures
            r == (CompilerMetrics {
                parse_micros: 0,
                optimization_micros: 0,
                codegen_micros: 0,
                total_nodes: 0,
                optimized_nodes: 0,
            }),
    {
        CompilerMetrics { parse_micros: 0, optimization_micros: 0, codegen_micros: 0, total_nodes: 0, optimized_nodes: 0 }
    }
}

} // verus!
