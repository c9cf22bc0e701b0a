//! Constant folding: operations whose operands are literals are replaced by
//! their value, constant conditions pick their branch, and a few built-in
//! calls on literal arguments are evaluated.
//!
//! Integer arithmetic is done on 64-bit values; an operation whose result does
//! not fit (or a division by zero) is left as it is. Number literals with a
//! fractional part are not computed with.
use vstd::prelude::*;
use crate::ast::{ASTNode, NodeView, nodes_view, node_view, duplicate_nodes, copy_params, copy_opt_string, lemma_nodes_view, lemma_nodes_view_push};
use crate::error::IoError;
use crate::text::{str_eq, to_owned_string};

verus! {

/// The value of an integer operation, when it is defined and fits in 64 bits.
pub open spec fn eval_int_op(op: Seq<char>, left: i64, right: i64) -> Option<i64> {
    if op == "+"@ {
        left.checked_add(right)
    } else if op == "-"@ {
        left.checked_sub(right)
    } else if op == "*"@ {
        left.checked_mul(right)
    } else if op == "/"@ {
        left.checked_div(right)
    } else if op == "%"@ {
        match left.checked_div(right) {
            Some(q) => Some((left - right * q) as i64),
            None => None,
        }
    } else {
        None
    }
}

/// The value of a boolean operation, when the operator is one.
pub open spec fn eval_bool_op(op: Seq<char>, left: bool, right: bool) -> Option<bool> {
    if op == "&&"@ {
        Some(left && right)
    } else if op == "||"@ {
        Some(left || right)
    } else if op == "=="@ {
        Some(left == right)
    } else if op == "!="@ {
        Some(left != right)
    } else {
        None
    }
}

/// A literal value.
pub open spec fn is_literal(n: NodeView) -> bool {
    ||| n is IntegerLiteral
    ||| n is FloatLiteral
    ||| n is BooleanLiteral
    ||| n is StringLiteral
}

/// The name of the type of a constant node.
pub open spec fn const_type(n: NodeView) -> Option<Seq<char>> {
    match n {
        NodeView::IntegerLiteral(_) => Some("integer"@),
        NodeView::FloatLiteral(_) => Some("float"@),
        NodeView::BooleanLiteral(_) => Some("boolean"@),
        NodeView::StringLiteral(_) => Some("string"@),
        NodeView::ArrayLiteral(_) => Some("array"@),
        _ => None,
    }
}

/// All nodes are integer literals.
pub open spec fn all_ints(s: Seq<NodeView>) -> bool {
    forall|i: int| 0 <= i < s.len() ==> #[trigger] s[i] is IntegerLiteral
}

/// The least (`want_min`) or greatest value among integer literals; 0 for none.
pub open spec fn extreme(s: Seq<NodeView>, want_min: bool) -> i64
    decreases s.len(),
{
    if s.len() == 0 {
        0
    } else if s.len() == 1 {
        s[0]->IntegerLiteral_0
    } else {
        let rest = extreme(s.drop_last(), want_min);
        let x = s.last()->IntegerLiteral_0;
        if want_min {
            if x < rest { x } else { rest }
        } else {
            if x > rest { x } else { rest }
        }
    }
}

/// Folding a node: the folded node, and whether anything was folded.
pub open spec fn fold_node(n: NodeView) -> (NodeView, bool)
    decreases n,
{
    match n {
        NodeView::BinaryOperation { left, operator, right } => {
            let (lf, c1) = fold_node(*left);
            let (rf, c2) = fold_node(*right);
            let kept = (NodeView::BinaryOperation { left: Box::new(lf), operator, right: Box::new(rf) }, c1 || c2);
            match (lf, rf) {
                (NodeView::IntegerLiteral(a), NodeView::IntegerLiteral(b)) => match eval_int_op(operator, a, b) {
                    Some(v) => (NodeView::IntegerLiteral(v), true),
                    None => kept,
                },
                (NodeView::BooleanLiteral(a), NodeView::BooleanLiteral(b)) => match eval_bool_op(operator, a, b) {
                    Some(v) => (NodeView::BooleanLiteral(v), true),
                    None => kept,
                },
                (NodeView::StringLiteral(a), NodeView::StringLiteral(b)) => if operator == "+"@ {
                    (NodeView::StringLiteral(a + b), true)
                } else {
                    kept
                },
                _ => kept,
            }
        },
        NodeView::UnaryOperation { operator, operand } => {
            let (f, c) = fold_node(*operand);
            match f {
                NodeView::IntegerLiteral(v) => if operator == "-"@ && v != i64::MIN {
                    (NodeView::IntegerLiteral((-v) as i64), true)
                } else {
                    (NodeView::UnaryOperation { operator, operand: Box::new(f) }, c)
                },
                NodeView::BooleanLiteral(v) => if operator == "!"@ {
                    (NodeView::BooleanLiteral(!v), true)
                } else {
                    (NodeView::UnaryOperation { operator, operand: Box::new(f) }, c)
                },
                _ => (NodeView::UnaryOperation { operator, operand: Box::new(f) }, c),
            }
        },
        NodeView::IfExpression { condition, then_branch, else_branch } => {
            let (cf, c1) = fold_node(*condition);
            let (tf, c2) = fold_node(*then_branch);
            let ef = match else_branch {
                Some(e) => Some(fold_node(*e)),
                None => None,
            };
            let c3 = match ef {
                Some((_, c)) => c,
                None => false,
            };
            if cf == NodeView::BooleanLiteral(true) {
                (tf, true)
            } else if cf == NodeView::BooleanLiteral(false) && ef is Some {
                (ef.unwrap().0, true)
            } else {
                (NodeView::IfExpression {
                    condition: Box::new(cf),
                    then_branch: Box::new(tf),
                    else_branch: match ef {
                        Some((e, _)) => Some(Box::new(e)),
                        None => None,
                    },
                }, c1 || c2 || c3)
            }
        },
        NodeView::Block(stmts) => {
            let (fs, c) = fold_nodes(stmts);
            if fs.len() > 0 && (forall|i: int| 0 <= i < fs.len() ==> #[trigger] is_literal(fs[i])) {
                (fs.last(), true)
            } else {
                (NodeView::Block(fs), c)
            }
        },
        NodeView::FunctionCall { name, arguments } => {
            let (fa, c) = fold_nodes(arguments);
            if name == "len"@ && fa.len() == 1 && fa[0] is ArrayLiteral && fa[0]->ArrayLiteral_0.len() <= i64::MAX {
                (NodeView::IntegerLiteral(fa[0]->ArrayLiteral_0.len() as i64), true)
            } else if name == "typeof"@ && fa.len() == 1 && const_type(fa[0]) is Some {
                (NodeView::StringLiteral(const_type(fa[0])->0), true)
            } else if (name == "min"@ || name == "max"@) && all_ints(fa) {
                (NodeView::IntegerLiteral(extreme(fa, name == "min"@)), true)
            } else {
                (NodeView::FunctionCall { name, arguments: fa }, c)
            }
        },
        NodeView::ArrayLiteral(elements) => {
            let (fe, c) = fold_nodes(elements);
            (NodeView::ArrayLiteral(fe), c)
        },
        NodeView::ArrayIndex { array, index } => {
            let (af, c1) = fold_node(*array);
            let (xf, c2) = fold_node(*index);
            match (af, xf) {
                (NodeView::ArrayLiteral(els), NodeView::IntegerLiteral(i)) => if 0 <= i < els.len() {
                    (els[i as int], true)
                } else {
                    (NodeView::ArrayIndex { array: Box::new(af), index: Box::new(xf) }, c1 || c2)
                },
                _ => (NodeView::ArrayIndex { array: Box::new(af), index: Box::new(xf) }, c1 || c2),
            }
        },
        NodeView::Program(v) => {
            let (fv, c) = fold_nodes(v);
            (NodeView::Program(fv), c)
        },
        NodeView::Function { name, params, return_type, body, is_async } => {
            let (fb, c) = fold_nodes(body);
            (NodeView::Function { name, params, return_type, body: fb, is_async }, c)
        },
        NodeView::VariableDeclaration { name, type_annotation, value, is_mutable } => {
            let (fv, c) = fold_node(*value);
            (NodeView::VariableDeclaration { name, type_annotation, value: Box::new(fv), is_mutable }, c)
        },
        NodeView::Assignment { target, value } => {
            let (fv, c) = fold_node(*value);
            (NodeView::Assignment { target, value: Box::new(fv) }, c)
        },
        NodeView::If { condition, then_branch, else_branch } => {
            let (cf, c1) = fold_node(*condition);
            let (tf, c2) = fold_nodes(then_branch);
            match else_branch {
                Some(e) => {
                    let (ef, c3) = fold_nodes(e);
                    (NodeView::If { condition: Box::new(cf), then_branch: tf, else_branch: Some(ef) }, c1 || c2 || c3)
                },
                None => (NodeView::If { condition: Box::new(cf), then_branch: tf, else_branch: None }, c1 || c2),
            }
        },
        NodeView::While { condition, body } => {
            let (cf, c1) = fold_node(*condition);
            let (bf, c2) = fold_nodes(body);
            (NodeView::While { condition: Box::new(cf), body: bf }, c1 || c2)
        },
        NodeView::Return(v) => match v {
            Some(e) => {
                let (f, c) = fold_node(*e);
                (NodeView::Return(Some(Box::new(f))), c)
            },
            None => (NodeView::Return(None), false),
        },
        _ => (n, false),
    }
}

/// Folding each node of a sequence: the folded nodes, and whether anything was folded.
pub open spec fn fold_nodes(s: Seq<NodeView>) -> (Seq<NodeView>, bool)
    decreases s,
{
    if s.len() == 0 {
        (Seq::empty(), false)
    } else {
        let (a, c1) = fold_nodes(s.drop_last());
        let (b, c2) = fold_node(s.last());
        (a.push(b), c1 || c2)
    }
}

pub proof fn lemma_fold_nodes_len(s: Seq<NodeView>)
    ensures
        fold_nodes(s).0.len() == s.len(),
        forall|i: int| 0 <= i < s.len() ==> #[trigger] fold_nodes(s).0[i] == fold_node(s[i]).0,
    decreases s.len(),
{
    if s.len() > 0 {
        lemma_fold_nodes_len(s.drop_last());
        assert forall|i: int| 0 <= i < s.len() implies #[trigger] fold_nodes(s).0[i] == fold_node(s[i]).0 by {
            if i < s.len() - 1 {
                assert(s.drop_last()[i] == s[i]);
            }
        }
    }
}

/// The remainder left by a truncating division fits in 64 bits.
proof fn lemma_rem_fits(x: i64, d: i64, q: i64)
    requires
        Some(q) == x.checked_div(d),
    ensures
        i64::MIN <= x - d * q <= i64::MAX,
{
    let xi = x as int;
    let di = d as int;
    let a: int = if xi >= 0 { xi } else { -xi };
    let b: int = if di >= 0 { di } else { -di };
    vstd::arithmetic::div_mod::lemma_fundamental_div_mod(a, b);
    vstd::arithmetic::div_mod::lemma_mod_pos_bound(a, b);
    let k = a / b;
    assert(a == b * k + a % b);
    if xi == 0 {
        assert(q == 0);
    } else if xi > 0 && di > 0 {
        assert(q == k);
    } else if xi < 0 && di < 0 {
        assert(q == k);
        assert(xi - di * k == -(a - b * k)) by (nonlinear_arith)
            requires a == -xi, b == -di;
    } else if xi < 0 {
        assert(q == -k);
        assert(xi - di * (-k) == -(a - b * k)) by (nonlinear_arith)
            requires a == -xi, b == di;
    } else {
        assert(q == -k);
        assert(xi - di * (-k) == a - b * k) by (nonlinear_arith)
            requires a == xi, b == -di;
    }
}

/// Folds constant expressions.
pub struct ConstantFolder {
    changed: bool,
}

impl ConstantFolder {
    /// Whether anything has been folded so far.
    pub closed spec fn spec_changed(&self) -> bool {
        self.changed
    }

    /// A folder that has folded nothing yet.
    pub fn new() -> (r: Self)
        ensures
            !r.spec_changed(),
    {
        ConstantFolder { changed: false }
    }

    /// Whether anything has been folded so far.
    pub fn changed(&self) -> (r: bool)
        ensures
            r == self.spec_changed(),
    {
        self.changed
    }

    /// Folds a tree. Folding never fails; the result is `Ok` with the folded tree.
    pub fn fold(&mut self, ast: &ASTNode) -> (r: Result<ASTNode, IoError>)
        ensures
            r matches Ok(n) && n@ == fold_node(ast@).0,
            final(self).spec_changed() == (old(self).spec_changed() || fold_node(ast@).1),
    {
        Ok(self.fold_tree(ast))
    }

    /// The value of an integer operation: `+ - * / %` on 64-bit integers;
    /// `None` for another operator, a division by zero, or an overflow.
    pub fn evaluate_binary_op(&self, op: &str, left: i64, right: i64) -> (r: Option<i64>)
        ensures
            r == eval_int_op(op@, left, right),
    {
        if str_eq(op, "+") {
            left.checked_add(right)
        } else if str_eq(op, "-") {
            left.checked_sub(right)
        } else if str_eq(op, "*") {
            left.checked_mul(right)
        } else if str_eq(op, "/") {
            left.checked_div(right)
        } else if str_eq(op, "%") {
            match left.checked_div(right) {
                Some(q) => {
                    proof {
                        lemma_rem_fits(left, right, q);
                    }
                    let wide: i128 = (left as i128) - (right as i128) * (q as i128);
                    Some(wide as i64)
                },
                None => None,
            }
        } else {
            None
        }
    }

    /// The value of a boolean operation: `&& || == !=`; `None` for another operator.
    pub fn evaluate_bool_op(&self, op: &str, left: bool, right: bool) -> (r: Option<bool>)
        ensures
            r == eval_bool_op(op@, left, right),
    {
        if str_eq(op, "&&") {
            Some(left && right)
        } else if str_eq(op, "||") {
            Some(left || right)
        } else if str_eq(op, "==") {
            Some(left == right)
        } else if str_eq(op, "!=") {
            Some(left != right)
        } else {
            None
        }
    }

    fn fold_tree(&mut self, n: &ASTNode) -> (r: ASTNode)
        ensures
            r@ == fold_node(n@).0,
            final(self).changed == (old(self).changed || fold_node(n@).1),
        decreases n,
    {
        match n {
            ASTNode::BinaryOperation { left, operator, right } => {
                let lf = self.fold_tree(left);
                let rf = self.fold_tree(right);
                match (&lf, &rf) {
                    (ASTNode::IntegerLiteral(a), ASTNode::IntegerLiteral(b)) => {
                        match self.evaluate_binary_op(operator.as_str(), *a, *b) {
                            Some(v) => {
                                self.changed = true;
                                return ASTNode::IntegerLiteral(v);
                            },
                            None => {},
                        }
                    },
                    (ASTNode::BooleanLiteral(a), ASTNode::BooleanLiteral(b)) => {
                        match self.evaluate_bool_op(operator.as_str(), *a, *b) {
                            Some(v) => {
                                self.changed = true;
                                return ASTNode::BooleanLiteral(v);
                            },
                            None => {},
                        }
                    },
                    (ASTNode::StringLiteral(a), ASTNode::StringLiteral(b)) => {
                        if str_eq(operator.as_str(), "+") {
                            self.changed = true;
                            let mut s = a.clone();
                            crate::text::push_str(&mut s, b.as_str());
                            return ASTNode::StringLiteral(s);
                        }
                    },
                    _ => {},
                }
                ASTNode::BinaryOperation { left: Box::new(lf), operator: operator.clone(), right: Box::new(rf) }
            },
            ASTNode::UnaryOperation { operator, operand } => {
                let f = self.fold_tree(operand);
                match &f {
                    ASTNode::IntegerLiteral(v) => {
                        if str_eq(operator.as_str(), "-") && *v != i64::MIN {
                            self.changed = true;
                            return ASTNode::IntegerLiteral(-*v);
                        }
                    },
                    ASTNode::BooleanLiteral(v) => {
                        if str_eq(operator.as_str(), "!") {
                            self.changed = true;
                            return ASTNode::BooleanLiteral(!*v);
                        }
                    },
                    _ => {},
                }
                ASTNode::UnaryOperation { operator: operator.clone(), operand: Box::new(f) }
            },
            ASTNode::IfExpression { condition, then_branch, else_branch } => {
                let cf = self.fold_tree(condition);
                let tf = self.fold_tree(then_branch);
                let ef = match else_branch {
                    Some(e) => Some(self.fold_tree(e)),
                    None => None,
                };
                match (&cf, ef) {
                    (ASTNode::BooleanLiteral(true), ef) => {
                        self.changed = true;
                        tf
                    },
                    (ASTNode::BooleanLiteral(false), Some(e)) => {
                        self.changed = true;
                        e
                    },
                    (_, ef) => ASTNode::IfExpression {
                        condition: Box::new(cf),
                        then_branch: Box::new(tf),
                        else_branch: match ef {
                            Some(e) => Some(Box::new(e)),
                            None => None,
                        },
                    },
                }
            },
            ASTNode::Block(stmts) => {
                let mut fs = self.fold_list(stmts);
                let ghost fv = nodes_view(fs@);
                let mut all_lit = true;
                let mut i: usize = 0;
                proof {
                    lemma_nodes_view(fs@);
                }
                while i < fs.len()
                    invariant
                        i <= fs@.len(),
                        fv == nodes_view(fs@),
                        fv.len() == fs@.len(),
                        forall|k: int| 0 <= k < fs@.len() ==> #[trigger] fv[k] == node_view(fs@[k]),
                        all_lit == (forall|k: int| 0 <= k < i ==> #[trigger] is_literal(fv[k])),
                    decreases fs.len() - i,
                {
                    let lit = match &fs[i] {
                        ASTNode::IntegerLiteral(_) => true,
                        ASTNode::FloatLiteral(_) => true,
                        ASTNode::BooleanLiteral(_) => true,
                        ASTNode::StringLiteral(_) => true,
                        _ => false,
                    };
                    assert(lit == is_literal(fv[i as int]));
                    all_lit = all_lit && lit;
                    i = i + 1;
                }
                if all_lit && fs.len() > 0 {
                    self.changed = true;
                    let last = fs.pop().unwrap();
                    last
                } else {
                    ASTNode::Block(fs)
                }
            },
            ASTNode::FunctionCall { name, arguments } => {
                let fa = self.fold_list(arguments);
                proof {
                    lemma_nodes_view(fa@);
                }
                let ghost fv = nodes_view(fa@);
                if str_eq(name.as_str(), "len") && fa.len() == 1 {
                    match &fa[0] {
                        ASTNode::ArrayLiteral(els) => {
                            proof {
                                lemma_nodes_view(els@);
                            }
                            if els.len() as u64 <= 0x7fff_ffff_ffff_ffff {
                                self.changed = true;
                                return ASTNode::IntegerLiteral(els.len() as i64);
                            }
                        },
                        _ => {},
                    }
                }
                if str_eq(name.as_str(), "typeof") && fa.len() == 1 {
                    let t: Option<&str> = match &fa[0] {
                        ASTNode::IntegerLiteral(_) => Some("integer"),
                        ASTNode::FloatLiteral(_) => Some("float"),
                        ASTNode::BooleanLiteral(_) => Some("boolean"),
                        ASTNode::StringLiteral(_) => Some("string"),
                        ASTNode::ArrayLiteral(_) => Some("array"),
                        _ => None,
                    };
                    match t {
                        Some(t) => {
                            self.changed = true;
                            return ASTNode::StringLiteral(to_owned_string(t));
                        },
                        None => {},
                    }
                }
                let is_min = str_eq(name.as_str(), "min");
                if is_min || str_eq(name.as_str(), "max") {
                    let mut all_int = true;
                    let mut best: i64 = 0;
                    let mut i: usize = 0;
                    while i < fa.len()
                        invariant
                            i <= fa@.len(),
                            fv == nodes_view(fa@),
                            fv.len() == fa@.len(),
                            forall|k: int| 0 <= k < fa@.len() ==> #[trigger] fv[k] == node_view(fa@[k]),
                            all_int == all_ints(fv.subrange(0, i as int)),
                            all_int ==> best == extreme(fv.subrange(0, i as int), is_min),
                        decreases fa.len() - i,
                    {
                        let ghost pre = fv.subrange(0, i as int);
                        let ghost next = fv.subrange(0, i as int + 1);
                        assert(next.drop_last() =~= pre);
                        match &fa[i] {
                            ASTNode::IntegerLiteral(x) => {
                                if all_int {
                                    if i == 0 {
                                        best = *x;
                                    } else if is_min {
                                        if *x < best {
                                            best = *x;
                                        }
                                    } else {
                                        if *x > best {
                                            best = *x;
                                        }
                                    }
                                }
                                assert(all_int == all_ints(next)) by {
                                    if all_ints(pre) {
                                        assert forall|k: int| 0 <= k < next.len() implies #[trigger] next[k] is IntegerLiteral by {
                                            if k < pre.len() {
                                                assert(pre[k] == next[k]);
                                            }
                                        }
                                    } else {
                                        let k = choose|k: int| 0 <= k < pre.len() && !(#[trigger] pre[k] is IntegerLiteral);
                                        assert(pre[k] == next[k]);
                                    }
                                }
                            },
                            _ => {
                                all_int = false;
                                assert(!(next[i as int] is IntegerLiteral));
                            },
                        }
                        i = i + 1;
                    }
                    assert(fv.subrange(0, fv.len() as int) =~= fv);
                    if all_int {
                        self.changed = true;
                        return ASTNode::IntegerLiteral(best);
                    }
                }
                ASTNode::FunctionCall { name: name.clone(), arguments: fa }
            },
            ASTNode::ArrayLiteral(elements) => {
                let fe = self.fold_list(elements);
                ASTNode::ArrayLiteral(fe)
            },
            ASTNode::ArrayIndex { array, index } => {
                let af = self.fold_tree(array);
                let xf = self.fold_tree(index);
                match (&af, &xf) {
                    (ASTNode::ArrayLiteral(els), ASTNode::IntegerLiteral(i)) => {
                        proof {
                            lemma_nodes_view(els@);
                        }
                        if *i >= 0 && (*i as u64) < (els.len() as u64) {
                            self.changed = true;
                            return els[*i as usize].duplicate();
                        }
                    },
                    _ => {},
                }
                ASTNode::ArrayIndex { array: Box::new(af), index: Box::new(xf) }
            },
            ASTNode::Program(v) => ASTNode::Program(self.fold_list(v)),
            ASTNode::Function { name, params, return_type, body, is_async } => ASTNode::Function {
                name: name.clone(),
                params: copy_params(params),
                return_type: copy_opt_string(return_type),
                body: self.fold_list(body),
                is_async: *is_async,
            },
            ASTNode::VariableDeclaration { name, type_annotation, value, is_mutable } => ASTNode::VariableDeclaration {
                name: name.clone(),
                type_annotation: copy_opt_string(type_annotation),
                value: Box::new(self.fold_tree(value)),
                is_mutable: *is_mutable,
            },
            ASTNode::Assignment { target, value } => ASTNode::Assignment {
                target: Box::new((**target).duplicate()),
                value: Box::new(self.fold_tree(value)),
            },
            ASTNode::If { condition, then_branch, else_branch } => {
                let cf = self.fold_tree(condition);
                let tf = self.fold_list(then_branch);
                let ef = match else_branch {
                    Some(e) => Some(self.fold_list(e)),
                    None => None,
                };
                ASTNode::If { condition: Box::new(cf), then_branch: tf, else_branch: ef }
            },
            ASTNode::While { condition, body } => {
                let cf = self.fold_tree(condition);
                let bf = self.fold_list(body);
                ASTNode::While { condition: Box::new(cf), body: bf }
            },
            ASTNode::Return(v) => match v {
                Some(e) => ASTNode::Return(Some(Box::new(self.fold_tree(e)))),
                None => ASTNode::Return(None),
            },
            _ => n.duplicate(),
        }
    }

    fn fold_list(&mut self, v: &Vec<ASTNode>) -> (r: Vec<ASTNode>)
        ensures
            nodes_view(r@) == fold_nodes(nodes_view(v@)).0,
            final(self).changed == (old(self).changed || fold_nodes(nodes_view(v@)).1),
        decreases v,
    {
        let mut out: Vec<ASTNode> = Vec::new();
        let mut i: usize = 0;
        proof {
            lemma_nodes_view(v@);
        }
        while i < v.len()
            invariant
                i <= v.len(),
                nodes_view(v@).len() == v@.len(),
                forall|k: int| 0 <= k < v@.len() ==> #[trigger] nodes_view(v@)[k] == node_view(v@[k]),
                nodes_view(out@) == fold_nodes(nodes_view(v@).subrange(0, i as int)).0,
                self.changed == (old(self).changed || fold_nodes(nodes_view(v@).subrange(0, i as int)).1),
            decreases v.len() - i,
        {
            let ghost pre = nodes_view(v@).subrange(0, i as int);
            let ghost next = nodes_view(v@).subrange(0, i as int + 1);
            assert(next.drop_last() =~= pre);
            let f = self.fold_tree(&v[i]);
            proof {
                lemma_nodes_view_push(out@, f);
            }
            out.push(f);
            i = i + 1;
        }
        assert(nodes_view(v@).subrange(0, v@.len() as int) =~= nodes_view(v@));
        out
    }
}

/// The operator texts the folder knows are different from one another.
proof fn lemma_operator_texts_differ()
    ensures
        "-"@ != "+"@,
        "*"@ != "+"@,
        "*"@ != "-"@,
        "||"@ != "&&"@,
        "=="@ != "&&"@,
        "=="@ != "||"@,
        "!="@ != "&&"@,
        "!="@ != "||"@,
        "!="@ != "=="@,
{
    reveal_strlit("+");
    reveal_strlit("-");
    reveal_strlit("*");
    reveal_strlit("&&");
    reveal_strlit("||");
    reveal_strlit("==");
    reveal_strlit("!=");
    assert("-"@[0] != "+"@[0]);
    assert("*"@[0] != "+"@[0]);
    assert("*"@[0] != "-"@[0]);
    assert("||"@[0] != "&&"@[0]);
    assert("=="@[0] != "&&"@[0]);
    assert("=="@[0] != "||"@[0]);
    assert("!="@[0] != "&&"@[0]);
    assert("!="@[0] != "||"@[0]);
    assert("!="@[0] != "=="@[0]);
}

/// Operands folded to literals, joined by an operator, as a node.
pub open spec fn binary(left: NodeView, operator: Seq<char>, right: NodeView) -> NodeView {
    NodeView::BinaryOperation { left: Box::new(left), operator, right: Box::new(right) }
}

/// A literal is already folded: folding gives it back and folds nothing.
pub proof fn law_literal_is_folded(n: NodeView)
    requires
        is_literal(n),
    ensures
        fold_node(n) == (n, false),
{
}

/// Adding two strings joins them: when the operands fold to string literals,
/// the sum folds to the literal of the left text followed by the right text.
pub proof fn law_fold_joins_strings(left: NodeView, right: NodeView, a: Seq<char>, b: Seq<char>)
    requires
        fold_node(left).0 == NodeView::StringLiteral(a),
        fold_node(right).0 == NodeView::StringLiteral(b),
    ensures
        fold_node(binary(left, "+"@, right)) == (NodeView::StringLiteral(a + b), true),
{
}

/// Integer sums, differences and products fold to their value when it fits in
/// 64 bits, and are left unfolded (with folded operands) when it does not.
pub proof fn law_fold_integer_arithmetic(left: NodeView, right: NodeView, a: i64, b: i64)
    requires
        fold_node(left).0 == NodeView::IntegerLiteral(a),
        fold_node(right).0 == NodeView::IntegerLiteral(b),
    ensures
        i64::MIN <= a + b <= i64::MAX ==> fold_node(binary(left, "+"@, right)).0 == NodeView::IntegerLiteral(
            (a + b) as i64,
        ),
        !(i64::MIN <= a + b <= i64::MAX) ==> fold_node(binary(left, "+"@, right)).0 == binary(
            NodeView::IntegerLiteral(a),
            "+"@,
            NodeView::IntegerLiteral(b),
        ),
        i64::MIN <= a - b <= i64::MAX ==> fold_node(binary(left, "-"@, right)).0 == NodeView::IntegerLiteral(
            (a - b) as i64,
        ),
        !(i64::MIN <= a - b <= i64::MAX) ==> fold_node(binary(left, "-"@, right)).0 == binary(
            NodeView::IntegerLiteral(a),
            "-"@,
            NodeView::IntegerLiteral(b),
        ),
        i64::MIN <= a * b <= i64::MAX ==> fold_node(binary(left, "*"@, right)).0 == NodeView::IntegerLiteral(
            (a * b) as i64,
        ),
        !(i64::MIN <= a * b <= i64::MAX) ==> fold_node(binary(left, "*"@, right)).0 == binary(
            NodeView::IntegerLiteral(a),
            "*"@,
            NodeView::IntegerLiteral(b),
        ),
{
    reveal_strlit("+");
    reveal_strlit("-");
    reveal_strlit("*");
    reveal_strlit("/");
    reveal_strlit("%");
    reveal_strlit("&&");
    reveal_strlit("||");
    reveal_strlit("==");
    reveal_strlit("!=");
    lemma_operator_texts_differ();
}

/// Truncating division of 64-bit integers: unless it overflows, the quotient
/// exists, and the remainder it leaves is smaller than the divisor and has the
/// sign of the dividend.
proof fn lemma_truncating_division(a: i64, b: i64)
    requires
        b != 0,
        !(a == i64::MIN && b == -1),
    ensures
        a.checked_div(b) is Some,
        ({
            let r = a - b * a.checked_div(b)->0;
            &&& -(b as int) < r < b as int || (b as int) < r < -(b as int)
            &&& a >= 0 ==> r >= 0
            &&& a <= 0 ==> r <= 0
        }),
{
    let x = a as int;
    let d = b as int;
    let p: int = if x < 0 { -x } else { x };
    let e: int = if d < 0 { -d } else { d };
    assert(e >= 1);
    vstd::arithmetic::div_mod::lemma_fundamental_div_mod(p, e);
    vstd::arithmetic::div_mod::lemma_mod_bound(p, e);
    let q0 = p / e;
    let m = p % e;
    assert(p == e * q0 + m);
    assert(q0 >= 0) by (nonlinear_arith)
        requires p == e * q0 + m, 0 <= m < e, p >= 0, e >= 1;
    assert(q0 <= p) by (nonlinear_arith)
        requires p == e * q0 + m, 0 <= m, e >= 1, q0 >= 0;
    assert(e >= 2 ==> 2 * q0 <= p) by (nonlinear_arith)
        requires p == e * q0 + m, 0 <= m, q0 >= 0;
    let q = a.checked_div(b)->0 as int;
    if x == 0 {
        assert(q == 0);
        assert(a - b * q == 0);
    } else if x > 0 && d > 0 {
        assert(q == q0);
        assert(x - d * q0 == m);
    } else if x < 0 && d < 0 {
        assert(e >= 2 || x != i64::MIN);
        assert(q == q0);
        assert(x - d * q0 == -m) by (nonlinear_arith)
            requires p == e * q0 + m, p == -x, e == -d;
    } else if x < 0 {
        assert(q == -q0);
        assert(x - d * (-q0) == -m) by (nonlinear_arith)
            requires p == e * q0 + m, p == -x, e == d;
    } else {
        assert(q == -q0);
        assert(x - d * (-q0) == m) by (nonlinear_arith)
            requires p == e * q0 + m, p == x, e == -d;
    }
}

/// Integer division and remainder truncate toward zero: when the operands fold
/// to integer literals and the divisor is not zero (and the quotient fits in
/// 64 bits), the quotient and the remainder fold to literals with
/// dividend = divisor * quotient + remainder, the remainder smaller than the
/// divisor and of the sign of the dividend. A zero divisor leaves both
/// operations unfolded.
pub proof fn law_fold_division_and_remainder(left: NodeView, right: NodeView, a: i64, b: i64)
    requires
        fold_node(left).0 == NodeView::IntegerLiteral(a),
        fold_node(right).0 == NodeView::IntegerLiteral(b),
    ensures
        b == 0 ==> fold_node(binary(left, "/"@, right)).0 == binary(
            NodeView::IntegerLiteral(a),
            "/"@,
            NodeView::IntegerLiteral(b),
        ) && fold_node(binary(left, "%"@, right)).0 == binary(
            NodeView::IntegerLiteral(a),
            "%"@,
            NodeView::IntegerLiteral(b),
        ),
        b != 0 && !(a == i64::MIN && b == -1) ==> ({
            let quotient = fold_node(binary(left, "/"@, right)).0;
            let remainder = fold_node(binary(left, "%"@, right)).0;
            let q = quotient->IntegerLiteral_0;
            let r = remainder->IntegerLiteral_0;
            &&& quotient is IntegerLiteral
            &&& remainder is IntegerLiteral
            &&& a == b * q + r
            &&& -(b as int) < r < b as int || (b as int) < r < -(b as int)
            &&& a >= 0 ==> r >= 0
            &&& a <= 0 ==> r <= 0
        }),
{
    reveal_strlit("+");
    reveal_strlit("-");
    reveal_strlit("*");
    reveal_strlit("/");
    reveal_strlit("%");
    reveal_strlit("&&");
    reveal_strlit("||");
    reveal_strlit("==");
    reveal_strlit("!=");
    lemma_operator_texts_differ();
    assert("/"@ != "+"@ && "/"@ != "-"@ && "/"@ != "*"@) by {
        assert("/"@[0] != "+"@[0] && "/"@[0] != "-"@[0] && "/"@[0] != "*"@[0]);
    }
    assert("%"@ != "+"@ && "%"@ != "-"@ && "%"@ != "*"@ && "%"@ != "/"@) by {
        assert("%"@[0] != "+"@[0] && "%"@[0] != "-"@[0] && "%"@[0] != "*"@[0] && "%"@[0] != "/"@[0]);
    }
    if b != 0 && !(a == i64::MIN && b == -1) {
        lemma_truncating_division(a, b);
    }
}

/// Boolean conjunction, disjunction, equality and inequality fold to their
/// truth value when both operands fold to boolean literals.
pub proof fn law_fold_boolean_logic(left: NodeView, right: NodeView, a: bool, b: bool)
    requires
        fold_node(left).0 == NodeView::BooleanLiteral(a),
        fold_node(right).0 == NodeView::BooleanLiteral(b),
    ensures
        fold_node(binary(left, "&&"@, right)).0 == NodeView::BooleanLiteral(a && b),
        fold_node(binary(left, "||"@, right)).0 == NodeView::BooleanLiteral(a || b),
        fold_node(binary(left, "=="@, right)).0 == NodeView::BooleanLiteral(a == b),
        fold_node(binary(left, "!="@, right)).0 == NodeView::BooleanLiteral(a != b),
{
    reveal_strlit("+");
    reveal_strlit("-");
    reveal_strlit("*");
    reveal_strlit("/");
    reveal_strlit("%");
    reveal_strlit("&&");
    reveal_strlit("||");
    reveal_strlit("==");
    reveal_strlit("!=");
    lemma_operator_texts_differ();
}

/// Negation folds: an integer to its opposite (when it has one in 64 bits), a
/// boolean to its complement.
pub proof fn law_fold_negation(operand: NodeView, v: i64, w: bool)
    ensures
        fold_node(operand).0 == NodeView::IntegerLiteral(v) && v != i64::MIN ==> fold_node(
            NodeView::UnaryOperation { operator: "-"@, operand: Box::new(operand) },
        ).0 == NodeView::IntegerLiteral((-v) as i64),
        fold_node(operand).0 == NodeView::BooleanLiteral(w) ==> fold_node(
            NodeView::UnaryOperation { operator: "!"@, operand: Box::new(operand) },
        ).0 == NodeView::BooleanLiteral(!w),
{
}

/// A conditional expression whose condition folds to a constant folds to the
/// branch that constant picks.
pub proof fn law_fold_picks_branch(condition: NodeView, then_branch: NodeView, else_branch: NodeView)
    ensures
        fold_node(condition).0 == NodeView::BooleanLiteral(true) ==> fold_node(
            NodeView::IfExpression {
                condition: Box::new(condition),
                then_branch: Box::new(then_branch),
                else_branch: Some(Box::new(else_branch)),
            },
        ).0 == fold_node(then_branch).0,
        fold_node(condition).0 == NodeView::BooleanLiteral(false) ==> fold_node(
            NodeView::IfExpression {
                condition: Box::new(condition),
                then_branch: Box::new(then_branch),
                else_branch: Some(Box::new(else_branch)),
            },
        ).0 == fold_node(else_branch).0,
{
}

/// Indexing a literal array with a literal index in range folds to that
/// element of the folded array.
pub proof fn law_fold_indexes_arrays(array: NodeView, index: NodeView, els: Seq<NodeView>, i: i64)
    requires
        fold_node(array).0 == NodeView::ArrayLiteral(els),
        fold_node(index).0 == NodeView::IntegerLiteral(i),
        0 <= i < els.len(),
    ensures
        fold_node(NodeView::ArrayIndex { array: Box::new(array), index: Box::new(index) }).0 == els[i as int],
{
}

/// The built-in `len` of an argument that folds to an array literal folds to
/// the number of its elements, and `typeof` of an argument that folds to a
/// literal folds to the name of its type.
pub proof fn law_fold_builtin_calls(arg: NodeView)
    ensures
        ({
            let f = fold_node(arg).0;
            let call_len = fold_node(NodeView::FunctionCall { name: "len"@, arguments: seq![arg] }).0;
            let call_type = fold_node(NodeView::FunctionCall { name: "typeof"@, arguments: seq![arg] }).0;
            &&& f is ArrayLiteral && f->ArrayLiteral_0.len() <= i64::MAX
                ==> call_len == NodeView::IntegerLiteral(f->ArrayLiteral_0.len() as i64)
            &&& f is IntegerLiteral ==> call_type == NodeView::StringLiteral("integer"@)
            &&& f is FloatLiteral ==> call_type == NodeView::StringLiteral("float"@)
            &&& f is BooleanLiteral ==> call_type == NodeView::StringLiteral("boolean"@)
            &&& f is StringLiteral ==> call_type == NodeView::StringLiteral("string"@)
            &&& f is ArrayLiteral ==> call_type == NodeView::StringLiteral("array"@)
        }),
{
    reveal_strlit("len");
    reveal_strlit("typeof");
    assert("typeof"@ != "len"@) by {
        assert("typeof"@.len() != "len"@.len());
    }
    lemma_fold_nodes_len(seq![arg]);
    assert(fold_nodes(seq![arg]).0 == seq![fold_node(arg).0]);
}

/// A block whose statements all fold to literals folds to the value of its
/// last statement.
pub proof fn law_fold_block_of_literals(stmts: Seq<NodeView>)
    requires
        stmts.len() > 0,
        forall|i: int| 0 <= i < stmts.len() ==> is_literal(#[trigger] fold_node(stmts[i]).0),
    ensures
        fold_node(NodeView::Block(stmts)).0 == fold_node(stmts.last()).0,
{
    lemma_fold_nodes_len(stmts);
    let fs = fold_nodes(stmts).0;
    assert forall|i: int| 0 <= i < fs.len() implies #[trigger] is_literal(fs[i]) by {
        assert(fs[i] == fold_node(stmts[i]).0);
        assert(is_literal(fold_node(stmts[i]).0));
    }
    assert(fs.last() == fold_node(stmts[stmts.len() - 1]).0);
}

/// The least (or greatest) value of nonempty integer literals is one of them,
/// and no other is below (or above) it.
pub proof fn law_extreme_is_least_or_greatest(s: Seq<NodeView>, want_min: bool)
    requires
        all_ints(s),
        s.len() > 0,
    ensures
        exists|k: int| 0 <= k < s.len() && s[k] == NodeView::IntegerLiteral(extreme(s, want_min)),
        forall|k: int| 0 <= k < s.len() ==> (if want_min {
            extreme(s, want_min) <= (#[trigger] s[k])->IntegerLiteral_0
        } else {
            extreme(s, want_min) >= s[k]->IntegerLiteral_0
        }),
    decreases s.len(),
{
    if s.len() == 1 {
        assert(s[0] == NodeView::IntegerLiteral(s[0]->IntegerLiteral_0));
    } else {
        let t = s.drop_last();
        assert(all_ints(t)) by {
            assert forall|i: int| 0 <= i < t.len() implies #[trigger] t[i] is IntegerLiteral by {
                assert(t[i] == s[i]);
            }
        }
        law_extreme_is_least_or_greatest(t, want_min);
        let k0 = choose|k: int| 0 <= k < t.len() && t[k] == NodeView::IntegerLiteral(extreme(t, want_min));
        assert(s[k0] == t[k0]);
        assert(s[s.len() - 1] == NodeView::IntegerLiteral(s.last()->IntegerLiteral_0));
        assert forall|k: int| 0 <= k < s.len() implies (if want_min {
            extreme(s, want_min) <= (#[trigger] s[k])->IntegerLiteral_0
        } else {
            extreme(s, want_min) >= s[k]->IntegerLiteral_0
        }) by {
            if k < s.len() - 1 {
                assert(s[k] == t[k]);
            }
        }
    }
}

/// `min` and `max` of integer literal arguments fold to the least and the
/// greatest argument.
pub proof fn law_fold_min_max(args: Seq<NodeView>)
    requires
        all_ints(fold_nodes(args).0),
        fold_nodes(args).0.len() > 0,
    ensures
        ({
            let fa = fold_nodes(args).0;
            let lo = fold_node(NodeView::FunctionCall { name: "min"@, arguments: args }).0;
            let hi = fold_node(NodeView::FunctionCall { name: "max"@, arguments: args }).0;
            &&& lo is IntegerLiteral && hi is IntegerLiteral
            &&& exists|k: int| 0 <= k < fa.len() && fa[k] == lo
            &&& exists|k: int| 0 <= k < fa.len() && fa[k] == hi
            &&& forall|k: int| 0 <= k < fa.len() ==> lo->IntegerLiteral_0 <= (#[trigger] fa[k])->IntegerLiteral_0
                && fa[k]->IntegerLiteral_0 <= hi->IntegerLiteral_0
        }),
{
    reveal_strlit("len");
    reveal_strlit("typeof");
    reveal_strlit("min");
    reveal_strlit("max");
    assert("min"@[0] != "len"@[0] && "max"@[0] != "len"@[0]);
    assert("min"@.len() != "typeof"@.len() && "max"@.len() != "typeof"@.len());
    assert("max"@[1] != "min"@[1]);
    let fa = fold_nodes(args).0;
    law_extreme_is_least_or_greatest(fa, true);
    law_extreme_is_least_or_greatest(fa, false);
}

} // verus!
