//! Static analysis of functions: cyclomatic complexity, how many functions a
//! function calls, length, and how deeply its blocks nest.
use vstd::prelude::*;
use crate::ast::{ASTNode, NodeView, nodes_view, lemma_nodes_view, lemma_nodes_view_push};
use crate::error::IoError;
use crate::error::handler::strings_view;
use crate::text::{decimal, push_decimal, push_str, to_owned_string};

verus! {

/// The names of the functions called in a tree, in pre-order, repeats kept.
pub open spec fn calls_in(n: NodeView) -> Seq<Seq<char>>
    decreases n,
{
    match n {
        NodeView::Program(v) => calls_in_list(v),
        NodeView::Function { body, .. } => calls_in_list(body),
        NodeView::VariableDeclaration { value, .. } => calls_in(*value),
        NodeView::Assignment { target, value } => calls_in(*target) + calls_in(*value),
        NodeView::If { condition, then_branch, else_branch } => calls_in(*condition) + calls_in_list(then_branch)
            + match else_branch {
            Some(e) => calls_in_list(e),
            None => Seq::empty(),
        },
        NodeView::IfExpression { condition, then_branch, else_branch } => calls_in(*condition) + calls_in(*then_branch)
            + match else_branch {
            Some(e) => calls_in(*e),
            None => Seq::empty(),
        },
        NodeView::While { condition, body } => calls_in(*condition) + calls_in_list(body),
        NodeView::Return(v) => match v {
            Some(e) => calls_in(*e),
            None => Seq::empty(),
        },
        NodeView::Block(v) => calls_in_list(v),
        NodeView::BinaryOperation { left, right, .. } => calls_in(*left) + calls_in(*right),
        NodeView::UnaryOperation { operand, .. } => calls_in(*operand),
        NodeView::FunctionCall { name, arguments } => seq![name] + calls_in_list(arguments),
        NodeView::ArrayLiteral(v) => calls_in_list(v),
        NodeView::ArrayIndex { array, index } => calls_in(*array) + calls_in(*index),
        _ => Seq::empty(),
    }
}

/// The names of the functions called in the trees of a list, in order.
pub open spec fn calls_in_list(v: Seq<NodeView>) -> Seq<Seq<char>>
    decreases v,
{
    if v.len() == 0 {
        Seq::empty()
    } else {
        calls_in_list(v.drop_last()) + calls_in(v.last())
    }
}

/// The names in order of first occurrence, each once.
pub open spec fn distinct(s: Seq<Seq<char>>) -> Seq<Seq<char>>
    decreases s.len(),
{
    if s.len() == 0 {
        Seq::empty()
    } else {
        let d = distinct(s.drop_last());
        if d.contains(s.last()) {
            d
        } else {
            d.push(s.last())
        }
    }
}

/// How many statements of a body branch: each `if` and each `while` counts.
pub open spec fn branch_count(body: Seq<NodeView>) -> nat
    decreases body.len(),
{
    if body.len() == 0 {
        0
    } else {
        branch_count(body.drop_last()) + match body.last() {
            NodeView::If { .. } => 1nat,
            NodeView::While { .. } => 1nat,
            _ => 0nat,
        }
    }
}

/// The cyclomatic complexity of a function: one, plus one per branching
/// statement of its body; nothing else has one.
pub open spec fn complexity(n: NodeView) -> nat {
    match n {
        NodeView::Function { body, .. } => 1 + branch_count(body),
        _ => 0,
    }
}

/// The number of functions called more than which a function is flagged.
pub open spec fn dependency_limit() -> nat {
    5
}

/// The number of statements more than which a function is too long.
pub open spec fn length_limit() -> nat {
    50
}

/// The depth one past which a nested block is flagged; deeper levels count as
/// that depth plus one, as each is flagged alike.
pub open spec fn next_depth(d: nat) -> nat {
    if d > 3 {
        d
    } else {
        d + 1
    }
}

/// The nesting warnings of a list of statements at a depth: one if the depth
/// is past three, then those of each statement in turn.
pub open spec fn nesting_warnings(v: Seq<NodeView>, depth: nat) -> Seq<Seq<char>>
    decreases v, 1nat,
{
    (if depth > 3 {
        seq!["Excessive nesting detected"@]
    } else {
        Seq::empty()
    }) + nesting_each(v, depth)
}

/// The nesting warnings of each statement of a list in turn.
pub open spec fn nesting_each(v: Seq<NodeView>, depth: nat) -> Seq<Seq<char>>
    decreases v, 0nat,
{
    if v.len() == 0 {
        Seq::empty()
    } else {
        nesting_each(v.drop_last(), depth) + nesting_node(v.last(), depth)
    }
}

/// The nesting warnings of the blocks a statement holds: the inner block of a
/// block and the branches of an `if`, one level deeper.
pub open spec fn nesting_node(n: NodeView, depth: nat) -> Seq<Seq<char>>
    decreases n, 0nat,
{
    match n {
        NodeView::Block(inner) => nesting_warnings(inner, next_depth(depth)),
        NodeView::If { then_branch, else_branch, .. } => nesting_warnings(then_branch, next_depth(depth))
            + match else_branch {
            Some(e) => nesting_warnings(e, next_depth(depth)),
            None => Seq::empty(),
        },
        _ => Seq::empty(),
    }
}

/// The warnings of an analysis, in order: complexity past the threshold, too
/// many functions called, a body too long, blocks nested too deep.
pub open spec fn analysis_warnings(n: NodeView, threshold: nat) -> Seq<Seq<char>> {
    match n {
        NodeView::Function { name, body, .. } => {
            let c = complexity(n);
            let d = distinct(calls_in_list(body)).len();
            (if c > threshold {
                seq![
                    "High cyclomatic complexity: "@ + decimal(c) + " (threshold: "@ + decimal(threshold) + ")"@,
                ]
            } else {
                Seq::empty()
            }) + (if d > dependency_limit() {
                seq!["Function '"@ + name + "' has too many dependencies: "@ + decimal(d)]
            } else {
                Seq::empty()
            }) + (if body.len() > length_limit() {
                seq!["Function '"@ + name + "' is too long"@]
            } else {
                Seq::empty()
            }) + nesting_warnings(body, 0)
        },
        _ => Seq::empty(),
    }
}

/// Counts kept by an analysis.
#[derive(Debug)]
pub struct AnalysisMetrics {
    pub function_count: usize,
    pub line_count: usize,
    pub complexity_scores: Vec<u32>,
}

impl AnalysisMetrics {
    /// No function, no line, no score.
    pub fn new() -> (r: Self)
        ensures
            r.function_count == 0,
            r.line_count == 0,
            r.complexity_scores@.len() == 0,
    {
        AnalysisMetrics { function_count: 0, line_count: 0, complexity_scores: Vec::new() }
    }
}

/// The warnings and metrics of an analysis.
#[derive(Debug)]
pub struct AnalysisReport {
    warnings: Vec<String>,
    metrics: AnalysisMetrics,
}

impl AnalysisReport {
    /// The warnings, in the order they were added.
    pub closed spec fn spec_warnings(&self) -> Seq<Seq<char>> {
        strings_view(self.warnings@)
    }

    /// The metrics.
    pub closed spec fn spec_metrics(&self) -> AnalysisMetrics {
        self.metrics
    }

    /// A report with no warning and empty metrics.
    pub fn new() -> (r: Self)
        ensures
            r.spec_warnings() == Seq::<Seq<char>>::empty(),
            r.spec_metrics().function_count == 0,
            r.spec_metrics().line_count == 0,
            r.spec_metrics().complexity_scores@.len() == 0,
    {
        let r = AnalysisReport { warnings: Vec::new(), metrics: AnalysisMetrics::new() };
        assert(r.spec_warnings() =~= Seq::<Seq<char>>::empty());
        r
    }

    /// Adds a warning after the others.
    pub fn add_warning(&mut self, warning: String)
        ensures
            final(self).spec_warnings() == old(self).spec_warnings().push(warning@),
            final(self).spec_metrics() == old(self).spec_metrics(),
    {
        self.warnings.push(warning);
        assert(self.spec_warnings() =~= old(self).spec_warnings().push(warning@));
    }

    /// The warnings, in order.
    pub fn warnings(&self) -> (r: &Vec<String>)
        ensures
            strings_view(r@) == self.spec_warnings(),
    {
        &self.warnings
    }

    /// The metrics.
    pub fn metrics(&self) -> (r: &AnalysisMetrics)
        ensures
            *r == self.spec_metrics(),
    {
        &self.metrics
    }
}

/// Appends the names of the functions called in a tree to `out`.
fn collect_calls(n: &ASTNode, out: &mut Vec<String>)
    ensures
        strings_view(final(out)@) == strings_view(old(out)@) + calls_in(n@),
    decreases n,
{
    let ghost before = strings_view(out@);
    match n {
        ASTNode::Program(v) => collect_calls_list(v, out),
        ASTNode::Function { body, .. } => collect_calls_list(body, out),
        ASTNode::VariableDeclaration { value, .. } => collect_calls(value, out),
        ASTNode::Assignment { target, value } => {
            collect_calls(target, out);
            collect_calls(value, out);
            assert(strings_view(out@) =~= before + calls_in(n@));
        },
        ASTNode::If { condition, then_branch, else_branch } => {
            collect_calls(condition, out);
            collect_calls_list(then_branch, out);
            match else_branch {
                Some(e) => collect_calls_list(e, out),
                None => {},
            }
            assert(strings_view(out@) =~= before + calls_in(n@));
        },
        ASTNode::IfExpression { condition, then_branch, else_branch } => {
            collect_calls(condition, out);
            collect_calls(then_branch, out);
            match else_branch {
                Some(e) => collect_calls(e, out),
                None => {},
            }
            assert(strings_view(out@) =~= before + calls_in(n@));
        },
        ASTNode::While { condition, body } => {
            collect_calls(condition, out);
            collect_calls_list(body, out);
            assert(strings_view(out@) =~= before + calls_in(n@));
        },
        ASTNode::Return(v) => match v {
            Some(e) => collect_calls(e, out),
            None => {
                assert(strings_view(out@) =~= before + calls_in(n@));
            },
        },
        ASTNode::Block(v) => collect_calls_list(v, out),
        ASTNode::BinaryOperation { left, right, .. } => {
            collect_calls(left, out);
            collect_calls(right, out);
            assert(strings_view(out@) =~= before + calls_in(n@));
        },
        ASTNode::UnaryOperation { operand, .. } => collect_calls(operand, out),
        ASTNode::FunctionCall { name, arguments } => {
            out.push(name.clone());
            collect_calls_list(arguments, out);
            assert(strings_view(out@) =~= before + calls_in(n@));
        },
        ASTNode::ArrayLiteral(v) => collect_calls_list(v, out),
        ASTNode::ArrayIndex { array, index } => {
            collect_calls(array, out);
            collect_calls(index, out);
            assert(strings_view(out@) =~= before + calls_in(n@));
        },
        _ => {
            assert(strings_view(out@) =~= before + calls_in(n@));
        },
    }
}

/// Appends the names of the functions called in the trees of a list to `out`.
fn collect_calls_list(v: &Vec<ASTNode>, out: &mut Vec<String>)
    ensures
        strings_view(final(out)@) == strings_view(old(out)@) + calls_in_list(nodes_view(v@)),
    decreases v,
{
    let ghost before = strings_view(out@);
    let mut i: usize = 0;
    proof {
        assert(nodes_view(v@.subrange(0, 0)) =~= Seq::<NodeView>::empty());
        assert(strings_view(out@) =~= before + calls_in_list(nodes_view(v@.subrange(0, 0))));
    }
    while i < v.len()
        invariant
            i <= v@.len(),
            strings_view(out@) == before + calls_in_list(nodes_view(v@.subrange(0, i as int))),
        decreases v.len() - i,
    {
        proof {
            assert(v@.subrange(0, i + 1) =~= v@.subrange(0, i as int).push(v@[i as int]));
            lemma_nodes_view_push(v@.subrange(0, i as int), v@[i as int]);
        }
        collect_calls(&v[i], out);
        proof {
            let p = nodes_view(v@.subrange(0, i + 1));
            assert(p.drop_last() =~= nodes_view(v@.subrange(0, i as int)));
            assert(strings_view(out@) =~= before + calls_in_list(p));
        }
        i = i + 1;
    }
    proof {
        assert(v@.subrange(0, v@.len() as int) =~= v@);
    }
}

fn contains_string(v: &Vec<String>, s: &String) -> (r: bool)
    ensures
        r == strings_view(v@).contains(s@),
{
    let mut i: usize = 0;
    while i < v.len()
        invariant
            i <= v@.len(),
            forall|k: int| 0 <= k < i ==> v@[k]@ != s@,
        decreases v.len() - i,
    {
        if crate::text::str_eq(v[i].as_str(), s.as_str()) {
            assert(strings_view(v@)[i as int] == s@);
            return true;
        }
        i = i + 1;
    }
    proof {
        if strings_view(v@).contains(s@) {
            let k = choose|k: int| 0 <= k < strings_view(v@).len() && strings_view(v@)[k] == s@;
            assert(v@[k]@ == s@);
        }
    }
    false
}

/// The names in order of first occurrence, each once.
fn distinct_names(names: &Vec<String>) -> (r: Vec<String>)
    ensures
        strings_view(r@) == distinct(strings_view(names@)),
{
    let mut out: Vec<String> = Vec::new();
    let mut i: usize = 0;
    proof {
        assert(strings_view(names@).subrange(0, 0) =~= Seq::<Seq<char>>::empty());
        assert(strings_view(out@) =~= Seq::<Seq<char>>::empty());
    }
    while i < names.len()
        invariant
            i <= names@.len(),
            strings_view(out@) == distinct(strings_view(names@).subrange(0, i as int)),
        decreases names.len() - i,
    {
        let ghost pre = strings_view(names@).subrange(0, i as int);
        let ghost next = strings_view(names@).subrange(0, i + 1);
        proof {
            assert(next.drop_last() =~= pre);
            assert(next.last() == names@[i as int]@);
        }
        if !contains_string(&out, &names[i]) {
            out.push(names[i].clone());
            assert(strings_view(out@) =~= distinct(pre).push(names@[i as int]@));
        }
        i = i + 1;
    }
    proof {
        assert(strings_view(names@).subrange(0, names@.len() as int) =~= strings_view(names@));
    }
    out
}

/// The analyzer of functions, with the complexity past which a function is
/// flagged.
#[derive(Debug)]
pub struct CodeAnalyzer {
    complexity_threshold: u32,
    dependencies: Vec<(String, Vec<String>)>,
    metrics: AnalysisMetrics,
}

impl CodeAnalyzer {
    /// The complexity past which a function is flagged.
    pub closed spec fn spec_threshold(&self) -> nat {
        self.complexity_threshold as nat
    }

    /// An analyzer with threshold ten.
    pub fn new() -> (r: Self)
        ensures
            r.spec_threshold() == 10,
    {
        CodeAnalyzer { complexity_threshold: 10, dependencies: Vec::new(), metrics: AnalysisMetrics::new() }
    }

    /// Analyzes a tree: a function gets the warnings of [`analysis_warnings`];
    /// anything else none.
    pub fn analyze(&mut self, ast: &ASTNode) -> (r: Result<AnalysisReport, IoError>)
        requires
            complexity(ast@) <= u32::MAX,
        ensures
            final(self).spec_threshold() == old(self).spec_threshold(),
            r matches Ok(rep) && rep.spec_warnings() == analysis_warnings(ast@, old(self).spec_threshold())
                && rep.spec_metrics().function_count == 0 && rep.spec_metrics().line_count == 0
                && rep.spec_metrics().complexity_scores@.len() == 0,
    {
        let mut report = AnalysisReport::new();
        self.analyze_cyclomatic_complexity(ast, &mut report);
        self.analyze_dependencies(ast, &mut report);
        self.analyze_code_smells(ast, &mut report);
        proof {
            match ast@ {
                NodeView::Function { .. } => {
                    assert(report.spec_warnings() =~= analysis_warnings(ast@, self.spec_threshold()));
                },
                _ => {
                    assert(report.spec_warnings() =~= analysis_warnings(ast@, self.spec_threshold()));
                },
            }
        }
        Ok(report)
    }

    /// The complexity of a tree; a function past the threshold is flagged.
    fn analyze_cyclomatic_complexity(&self, node: &ASTNode, report: &mut AnalysisReport) -> (r: u32)
        requires
            complexity(node@) <= u32::MAX,
        ensures
            r == complexity(node@),
            final(report).spec_metrics() == old(report).spec_metrics(),
            final(report).spec_warnings() == old(report).spec_warnings() + (if node@ is Function && complexity(
                node@,
            ) > self.spec_threshold() {
                seq![
                    "High cyclomatic complexity: "@ + decimal(complexity(node@)) + " (threshold: "@ + decimal(
                        self.spec_threshold(),
                    ) + ")"@,
                ]
            } else {
                Seq::empty()
            }),
    {
        match node {
            ASTNode::Function { body, .. } => {
                let ghost b = nodes_view(body@);
                proof {
                    lemma_nodes_view(body@);
                }
                let mut count: u32 = 1;
                let mut i: usize = 0;
                while i < body.len()
                    invariant
                        i <= body@.len(),
                        b == nodes_view(body@),
                        b.len() == body@.len(),
                        forall|k: int| 0 <= k < body@.len() ==> #[trigger] b[k] == body@[k]@,
                        1 + branch_count(b) <= u32::MAX,
                        count == 1 + branch_count(b.subrange(0, i as int)),
                    decreases body.len() - i,
                {
                    proof {
                        assert(b.subrange(0, i + 1).drop_last() =~= b.subrange(0, i as int));
                        lemma_branch_count_prefix(b, i + 1);
                    }
                    match &body[i] {
                        ASTNode::If { .. } => {
                            count = count + 1;
                        },
                        ASTNode::While { .. } => {
                            count = count + 1;
                        },
                        _ => {},
                    }
                    i = i + 1;
                }
                proof {
                    assert(b.subrange(0, b.len() as int) =~= b);
                }
                if count > self.complexity_threshold {
                    let mut m = to_owned_string("High cyclomatic complexity: ");
                    push_decimal(&mut m, count as usize);
                    push_str(&mut m, " (threshold: ");
                    push_decimal(&mut m, self.complexity_threshold as usize);
                    push_str(&mut m, ")");
                    report.add_warning(m);
                } else {
                    assert(old(report).spec_warnings() + Seq::<Seq<char>>::empty() =~= old(report).spec_warnings());
                }
                count
            },
            _ => {
                assert(old(report).spec_warnings() + Seq::<Seq<char>>::empty() =~= old(report).spec_warnings());
                0
            },
        }
    }

    /// Flags a function that calls more than five distinct functions.
    fn analyze_dependencies(&self, node: &ASTNode, report: &mut AnalysisReport)
        ensures
            final(report).spec_metrics() == old(report).spec_metrics(),
            final(report).spec_warnings() == old(report).spec_warnings() + match node@ {
                NodeView::Function { name, body, .. } => if distinct(calls_in_list(body)).len() > dependency_limit() {
                    seq![
                        "Function '"@ + name + "' has too many dependencies: "@ + decimal(
                            distinct(calls_in_list(body)).len(),
                        ),
                    ]
                } else {
                    Seq::empty()
                },
                _ => Seq::empty(),
            },
    {
        match node {
            ASTNode::Function { name, body, .. } => {
                let mut calls: Vec<String> = Vec::new();
                collect_calls_list(body, &mut calls);
                assert(strings_view(calls@) =~= calls_in_list(nodes_view(body@)));
                let deps = distinct_names(&calls);
                if deps.len() > 5 {
                    let mut m = to_owned_string("Function '");
                    push_str(&mut m, name.as_str());
                    push_str(&mut m, "' has too many dependencies: ");
                    push_decimal(&mut m, deps.len());
                    report.add_warning(m);
                } else {
                    assert(old(report).spec_warnings() + Seq::<Seq<char>>::empty() =~= old(report).spec_warnings());
                }
            },
            _ => {
                assert(old(report).spec_warnings() + Seq::<Seq<char>>::empty() =~= old(report).spec_warnings());
            },
        }
    }

    /// Flags a function longer than fifty statements, and blocks nested past
    /// depth three.
    fn analyze_code_smells(&self, node: &ASTNode, report: &mut AnalysisReport)
        ensures
            final(report).spec_metrics() == old(report).spec_metrics(),
            final(report).spec_warnings() == old(report).spec_warnings() + match node@ {
                NodeView::Function { name, body, .. } => (if body.len() > length_limit() {
                    seq!["Function '"@ + name + "' is too long"@]
                } else {
                    Seq::empty()
                }) + nesting_warnings(body, 0),
                _ => Seq::empty(),
            },
    {
        match node {
            ASTNode::Function { name, body, .. } => {
                proof {
                    lemma_nodes_view(body@);
                }
                let ghost mid;
                if body.len() > 50 {
                    let mut m = to_owned_string("Function '");
                    push_str(&mut m, name.as_str());
                    push_str(&mut m, "' is too long");
                    report.add_warning(m);
                    proof {
                        mid = report.spec_warnings();
                    }
                } else {
                    proof {
                        mid = report.spec_warnings();
                        assert(old(report).spec_warnings() + Seq::<Seq<char>>::empty() =~= mid);
                    }
                }
                self.check_nested_blocks(body, 0, report);
                assert(report.spec_warnings() =~= old(report).spec_warnings() + ((if nodes_view(body@).len()
                    > length_limit() {
                    seq!["Function '"@ + name@ + "' is too long"@]
                } else {
                    Seq::empty()
                }) + nesting_warnings(nodes_view(body@), 0)));
            },
            _ => {
                assert(old(report).spec_warnings() + Seq::<Seq<char>>::empty() =~= old(report).spec_warnings());
            },
        }
    }

    /// Adds the nesting warnings of a list of statements at a depth.
    fn check_nested_blocks(&self, nodes: &Vec<ASTNode>, depth: usize, report: &mut AnalysisReport)
        requires
            depth <= 4,
        ensures
            final(report).spec_metrics() == old(report).spec_metrics(),
            final(report).spec_warnings() == old(report).spec_warnings() + nesting_warnings(
                nodes_view(nodes@),
                depth as nat,
            ),
        decreases nodes, 1nat,
    {
        if depth > 3 {
            report.add_warning(to_owned_string("Excessive nesting detected"));
        } else {
            assert(old(report).spec_warnings() + Seq::<Seq<char>>::empty() =~= old(report).spec_warnings());
        }
        let ghost mid = report.spec_warnings();
        let mut i: usize = 0;
        proof {
            assert(nodes_view(nodes@.subrange(0, 0)) =~= Seq::<NodeView>::empty());
            assert(report.spec_warnings() =~= mid + nesting_each(nodes_view(nodes@.subrange(0, 0)), depth as nat));
        }
        while i < nodes.len()
            invariant
                i <= nodes@.len(),
                depth <= 4,
                report.spec_metrics() == old(report).spec_metrics(),
                report.spec_warnings() == mid + nesting_each(nodes_view(nodes@.subrange(0, i as int)), depth as nat),
            decreases nodes.len() - i,
        {
            proof {
                assert(nodes@.subrange(0, i + 1) =~= nodes@.subrange(0, i as int).push(nodes@[i as int]));
                lemma_nodes_view_push(nodes@.subrange(0, i as int), nodes@[i as int]);
            }
            self.check_node(&nodes[i], depth, report);
            proof {
                let p = nodes_view(nodes@.subrange(0, i + 1));
                assert(p.drop_last() =~= nodes_view(nodes@.subrange(0, i as int)));
                assert(report.spec_warnings() =~= mid + nesting_each(p, depth as nat));
            }
            i = i + 1;
        }
        proof {
            assert(nodes@.subrange(0, nodes@.len() as int) =~= nodes@);
            assert(report.spec_warnings() =~= old(report).spec_warnings() + nesting_warnings(
                nodes_view(nodes@),
                depth as nat,
            ));
        }
    }

    /// Adds the nesting warnings of the blocks a statement holds.
    fn check_node(&self, node: &ASTNode, depth: usize, report: &mut AnalysisReport)
        requires
            depth <= 4,
        ensures
            final(report).spec_metrics() == old(report).spec_metrics(),
            final(report).spec_warnings() == old(report).spec_warnings() + nesting_node(node@, depth as nat),
        decreases node, 0nat,
    {
        let next: usize = if depth > 3 { depth } else { depth + 1 };
        match node {
            ASTNode::Block(inner) => {
                self.check_nested_blocks(inner, next, report);
            },
            ASTNode::If { then_branch, else_branch, .. } => {
                self.check_nested_blocks(then_branch, next, report);
                match else_branch {
                    Some(e) => {
                        self.check_nested_blocks(e, next, report);
                    },
                    None => {},
                }
                assert(report.spec_warnings() =~= old(report).spec_warnings() + nesting_node(node@, depth as nat));
            },
            _ => {
                assert(old(report).spec_warnings() + Seq::<Seq<char>>::empty() =~= old(report).spec_warnings());
            },
        }
    }
}

/// The branch count of a prefix is at most that of the whole body.
proof fn lemma_branch_count_prefix(b: Seq<NodeView>, i: int)
    requires
        0 <= i <= b.len(),
    ensures
        branch_count(b.subrange(0, i)) <= branch_count(b),
    decreases b.len() - i,
{
    if i < b.len() {
        lemma_branch_count_prefix(b, i + 1);
        assert(b.subrange(0, i + 1).drop_last() =~= b.subrange(0, i));
    } else {
        assert(b.subrange(0, i) =~= b);
    }
}

} // verus!
