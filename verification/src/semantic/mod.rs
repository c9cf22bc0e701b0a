//! Semantic analysis: scopes, type checking and control-flow validation.
use vstd::prelude::*;
use crate::ast::{ASTNode, NodeView, node_view, nodes_view, lemma_nodes_view, lemma_nodes_view_push, lemma_nodes_view_prefix};
use crate::error::{IoError, ErrorKind};

pub mod scope;
pub mod types;
pub mod analyzer;

verus! {

/// Type checks a program; the root must be a program node, checked from one
/// empty scope outside any loop or function.
pub fn analyze(ast: &ASTNode) -> (r: Result<(), IoError>)
    ensures
        !(ast is Program) ==> (r matches Err(e) && e.spec_kind() == ErrorKind::TypeError
            && e.spec_message() == "Expected program root"@),
        ast is Program ==> match analyzer::check_node(seq![Map::empty()], false, false, None, ast@).1 {
            Ok(_) => r is Ok,
            Err(m) => r matches Err(e) && e.spec_kind() == ErrorKind::TypeError && e.spec_message() == m,
        },
        r matches Err(e) ==> e.spec_kind() == ErrorKind::TypeError,
{
    match ast {
        ASTNode::Program(_) => {
            let mut analyzer = analyzer::SemanticAnalyzer::new();
            match analyzer.analyze(ast) {
                Ok(_) => Ok(()),
                Err(e) => Err(e),
            }
        },
        _ => Err(IoError::type_error("Expected program root")),
    }
}

/// What the control-flow check knows at a point: whether it is inside a loop,
/// inside a function, and whether a return has been seen on the current path.
pub type FlowState = (bool, bool, bool);

/// The control-flow check of a node from a state: `break` and `continue` only in
/// loops, `return` only in functions, and every function returning on all paths
/// (a conditional returns when both its branches do).
pub open spec fn flow(n: NodeView, s: FlowState) -> Result<FlowState, Seq<char>>
    decreases n,
{
    match n {
        NodeView::Function { body, .. } => match flow_list(body, (s.0, true, false)) {
            Ok(t) => if !t.2 {
                Err("Function must return a value"@)
            } else {
                Ok((t.0, s.1, s.2))
            },
            Err(m) => Err(m),
        },
        NodeView::Return(_) => if !s.1 {
            Err("Return statement outside function"@)
        } else {
            Ok((s.0, s.1, true))
        },
        NodeView::Break => if !s.0 { Err("Break statement outside loop"@) } else { Ok(s) },
        NodeView::Continue => if !s.0 { Err("Continue statement outside loop"@) } else { Ok(s) },
        NodeView::While { condition, body } => match flow(*condition, s) {
            Ok(s1) => match flow_list(body, (true, s1.1, s1.2)) {
                Ok(s2) => Ok((s1.0, s2.1, s2.2)),
                Err(m) => Err(m),
            },
            Err(m) => Err(m),
        },
        NodeView::If { condition, then_branch, else_branch } => match flow(*condition, s) {
            Ok(s1) => match flow_track(then_branch, s1) {
                Ok((s2, then_returns)) => match else_branch {
                    Some(e) => match flow_track(e, s2) {
                        Ok((s3, else_returns)) => Ok((s3.0, s3.1, then_returns && else_returns)),
                        Err(m) => Err(m),
                    },
                    None => Ok((s2.0, s2.1, false)),
                },
                Err(m) => Err(m),
            },
            Err(m) => Err(m),
        },
        _ => Ok(s),
    }
}

/// The check of statements in order.
pub open spec fn flow_list(v: Seq<NodeView>, s: FlowState) -> Result<FlowState, Seq<char>>
    decreases v,
{
    if v.len() == 0 {
        Ok(s)
    } else {
        match flow_list(v.drop_last(), s) {
            Ok(s1) => flow(v.last(), s1),
            Err(m) => Err(m),
        }
    }
}

/// The check of statements in order, noting whether a return had been seen
/// after any of them.
pub open spec fn flow_track(v: Seq<NodeView>, s: FlowState) -> Result<(FlowState, bool), Seq<char>>
    decreases v,
{
    if v.len() == 0 {
        Ok((s, false))
    } else {
        match flow_track(v.drop_last(), s) {
            Ok((s1, seen)) => match flow(v.last(), s1) {
                Ok(s2) => Ok((s2, seen || s2.2)),
                Err(m) => Err(m),
            },
            Err(m) => Err(m),
        }
    }
}

/// The state of the control-flow check.
struct ControlFlowValidator {
    in_loop: bool,
    in_function: bool,
    has_return: bool,
}

impl ControlFlowValidator {
    spec fn state(&self) -> FlowState {
        (self.in_loop, self.in_function, self.has_return)
    }

    fn new() -> (r: Self)
        ensures
            r.state() == (false, false, false),
    {
        ControlFlowValidator { in_loop: false, in_function: false, has_return: false }
    }

    fn validate_list(&mut self, nodes: &Vec<ASTNode>) -> (r: Result<(), IoError>)
        ensures
            match flow_list(nodes_view(nodes@), old(self).state()) {
                Ok(t) => r is Ok && final(self).state() == t,
                Err(m) => r matches Err(e) && e.spec_kind() == ErrorKind::TypeError && e.spec_message() == m,
            },
        decreases nodes, 0nat,
    {
        let ghost s0 = self.state();
        let mut i: usize = 0;
        while i < nodes.len()
            invariant
                i <= nodes@.len(),
                s0 == old(self).state(),
                flow_list(nodes_view(nodes@.subrange(0, i as int)), s0) == Ok::<FlowState, Seq<char>>(self.state()),
            decreases nodes.len() - i,
        {
            proof {
                assert(nodes@.subrange(0, i + 1) =~= nodes@.subrange(0, i as int).push(nodes@[i as int]));
                lemma_nodes_view_push(nodes@.subrange(0, i as int), nodes@[i as int]);
                assert(nodes_view(nodes@.subrange(0, i + 1)).drop_last() =~= nodes_view(nodes@.subrange(0, i as int)));
            }
            match self.validate(&nodes[i]) {
                Ok(()) => {},
                Err(e) => {
                    proof {
                        lemma_nodes_view(nodes@);
                        lemma_nodes_view_prefix(nodes@, i as int);
                        lemma_flow_list_err(nodes_view(nodes@), s0, i as int);
                    }
                    return Err(e);
                },
            }
            i = i + 1;
        }
        proof {
            assert(nodes@.subrange(0, nodes@.len() as int) =~= nodes@);
        }
        Ok(())
    }

    fn validate_track(&mut self, nodes: &Vec<ASTNode>) -> (r: Result<bool, IoError>)
        ensures
            match flow_track(nodes_view(nodes@), old(self).state()) {
                Ok((t, seen)) => r == Ok::<bool, IoError>(seen) && final(self).state() == t,
                Err(m) => r matches Err(e) && e.spec_kind() == ErrorKind::TypeError && e.spec_message() == m,
            },
        decreases nodes, 0nat,
    {
        let ghost s0 = self.state();
        let mut seen = false;
        let mut i: usize = 0;
        while i < nodes.len()
            invariant
                i <= nodes@.len(),
                s0 == old(self).state(),
                flow_track(nodes_view(nodes@.subrange(0, i as int)), s0) == Ok::<(FlowState, bool), Seq<char>>((self.state(), seen)),
            decreases nodes.len() - i,
        {
            proof {
                assert(nodes@.subrange(0, i + 1) =~= nodes@.subrange(0, i as int).push(nodes@[i as int]));
                lemma_nodes_view_push(nodes@.subrange(0, i as int), nodes@[i as int]);
                assert(nodes_view(nodes@.subrange(0, i + 1)).drop_last() =~= nodes_view(nodes@.subrange(0, i as int)));
            }
            match self.validate(&nodes[i]) {
                Ok(()) => {},
                Err(e) => {
                    proof {
                        lemma_nodes_view(nodes@);
                        lemma_nodes_view_prefix(nodes@, i as int);
                        lemma_flow_track_err(nodes_view(nodes@), s0, i as int);
                    }
                    return Err(e);
                },
            }
            if self.has_return {
                seen = true;
            }
            i = i + 1;
        }
        proof {
            assert(nodes@.subrange(0, nodes@.len() as int) =~= nodes@);
        }
        Ok(seen)
    }

    fn validate(&mut self, node: &ASTNode) -> (r: Result<(), IoError>)
        ensures
            match flow(node@, old(self).state()) {
                Ok(t) => r is Ok && final(self).state() == t,
                Err(m) => r matches Err(e) && e.spec_kind() == ErrorKind::TypeError && e.spec_message() == m,
            },
        decreases node, 1nat,
    {
        match node {
            ASTNode::Function { body, .. } => {
                let was_in_function = self.in_function;
                let had_return = self.has_return;
                self.in_function = true;
                self.has_return = false;
                match self.validate_list(body) {
                    Ok(()) => {},
                    Err(e) => return Err(e),
                }
                if !self.has_return {
                    return Err(IoError::type_error("Function must return a value"));
                }
                self.in_function = was_in_function;
                self.has_return = had_return;
                Ok(())
            },
            ASTNode::Return(_) => {
                if !self.in_function {
                    return Err(IoError::type_error("Return statement outside function"));
                }
                self.has_return = true;
                Ok(())
            },
            ASTNode::Break => {
                if !self.in_loop {
                    return Err(IoError::type_error("Break statement outside loop"));
                }
                Ok(())
            },
            ASTNode::Continue => {
                if !self.in_loop {
                    return Err(IoError::type_error("Continue statement outside loop"));
                }
                Ok(())
            },
            ASTNode::While { condition, body } => {
                match self.validate(condition) {
                    Ok(()) => {},
                    Err(e) => return Err(e),
                }
                let was_in_loop = self.in_loop;
                self.in_loop = true;
                match self.validate_list(body) {
                    Ok(()) => {},
                    Err(e) => return Err(e),
                }
                self.in_loop = was_in_loop;
                Ok(())
            },
            ASTNode::If { condition, then_branch, else_branch } => {
                match self.validate(condition) {
                    Ok(()) => {},
                    Err(e) => return Err(e),
                }
                let then_returns = match self.validate_track(then_branch) {
                    Ok(b) => b,
                    Err(e) => return Err(e),
                };
                let else_returns = match else_branch {
                    Some(e) => match self.validate_track(e) {
                        Ok(b) => b,
                        Err(err) => return Err(err),
                    },
                    None => false,
                };
                self.has_return = then_returns && else_returns;
                Ok(())
            },
            _ => Ok(()),
        }
    }
}

/// A failure at position `i` after a prefix that passes is the failure of the
/// whole list.
proof fn lemma_flow_list_err(v: Seq<NodeView>, s: FlowState, i: int)
    requires
        0 <= i < v.len(),
        flow_list(v.subrange(0, i), s) is Ok,
        flow(v[i], flow_list(v.subrange(0, i), s)->Ok_0) is Err,
    ensures
        flow_list(v, s) == flow(v[i], flow_list(v.subrange(0, i), s)->Ok_0),
    decreases v.len() - i,
{
    let m = flow(v[i], flow_list(v.subrange(0, i), s)->Ok_0);
    assert(v.subrange(0, i + 1).drop_last() =~= v.subrange(0, i));
    lemma_flow_list_err_grow(v, s, i + 1, m);
}

proof fn lemma_flow_list_err_grow(v: Seq<NodeView>, s: FlowState, j: int, m: Result<FlowState, Seq<char>>)
    requires
        0 < j <= v.len(),
        m is Err,
        flow_list(v.subrange(0, j), s) == m,
    ensures
        flow_list(v, s) == m,
    decreases v.len() - j,
{
    if j < v.len() {
        assert(v.subrange(0, j + 1).drop_last() =~= v.subrange(0, j));
        lemma_flow_list_err_grow(v, s, j + 1, m);
    } else {
        assert(v.subrange(0, j) =~= v);
    }
}

/// A failure at position `i` after a prefix that passes is the failure of the
/// whole list.
proof fn lemma_flow_track_err(v: Seq<NodeView>, s: FlowState, i: int)
    requires
        0 <= i < v.len(),
        flow_track(v.subrange(0, i), s) is Ok,
        flow(v[i], (flow_track(v.subrange(0, i), s)->Ok_0).0) is Err,
    ensures
        flow_track(v, s) == Err::<(FlowState, bool), Seq<char>>(flow(v[i], (flow_track(v.subrange(0, i), s)->Ok_0).0)->Err_0),
    decreases v.len() - i,
{
    let m = flow(v[i], (flow_track(v.subrange(0, i), s)->Ok_0).0)->Err_0;
    assert(v.subrange(0, i + 1).drop_last() =~= v.subrange(0, i));
    lemma_flow_track_err_grow(v, s, i + 1, m);
}

proof fn lemma_flow_track_err_grow(v: Seq<NodeView>, s: FlowState, j: int, m: Seq<char>)
    requires
        0 < j <= v.len(),
        flow_track(v.subrange(0, j), s) == Err::<(FlowState, bool), Seq<char>>(m),
    ensures
        flow_track(v, s) == Err::<(FlowState, bool), Seq<char>>(m),
    decreases v.len() - j,
{
    if j < v.len() {
        assert(v.subrange(0, j + 1).drop_last() =~= v.subrange(0, j));
        lemma_flow_track_err_grow(v, s, j + 1, m);
    } else {
        assert(v.subrange(0, j) =~= v);
    }
}

/// Checks that `break` and `continue` stand in loops, `return` in functions, and
/// that every function returns on all paths.
pub fn validate_control_flow(ast: &ASTNode) -> (r: Result<(), IoError>)
    ensures
        match flow(ast@, (false, false, false)) {
            Ok(_) => r is Ok,
            Err(m) => r matches Err(e) && e.spec_kind() == ErrorKind::TypeError && e.spec_message() == m,
        },
{
    let mut validator = ControlFlowValidator::new();
    validator.validate(ast)
}

} // verus!
