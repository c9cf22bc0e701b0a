//! Macros: named bodies of statements with parameters. A call of a macro is
//! replaced by a block holding the macro's body, with each parameter replaced
//! by the corresponding argument.
use vstd::prelude::*;
use crate::ast::{
    ASTNode, NodeView, node_view, nodes_view, lemma_nodes_view, lemma_nodes_view_push, lemma_nodes_view_prefix, copy_params,
    copy_opt_string, duplicate_nodes,
};
use crate::error::{IoError, ErrorKind};
use crate::text::{decimal, push_decimal, push_str, to_owned_string, str_eq};

verus! {

/// A macro: its name, its parameters, and the statements of its body.
#[derive(Debug)]
pub struct MacroDefinition {
    pub name: String,
    pub params: Vec<String>,
    pub body: Vec<ASTNode>,
}

/// The macros known to the expander, by name, with a limit on nested expansion.
pub struct MacroExpander {
    definitions: Vec<MacroDefinition>,
    expansion_depth: usize,
    max_depth: usize,
}

/// The texts of a list of strings.
pub open spec fn texts(v: Seq<String>) -> Seq<Seq<char>> {
    v.map_values(|s: String| s@)
}

/// The argument that replaces the identifier `x`: the one for the last parameter
/// named `x`, if any.
pub open spec fn replacement(params: Seq<Seq<char>>, args: Seq<NodeView>, x: Seq<char>) -> Option<NodeView>
    decreases params.len(),
{
    if params.len() == 0 {
        None
    } else if params.last() == x && params.len() <= args.len() {
        Some(args[params.len() - 1])
    } else {
        replacement(params.drop_last(), args, x)
    }
}

/// The node with every identifier that names a parameter replaced by its argument.
pub open spec fn subst(n: NodeView, params: Seq<Seq<char>>, args: Seq<NodeView>) -> NodeView
    decreases n,
{
    match n {
        NodeView::Identifier(x) => match replacement(params, args, x) {
            Some(a) => a,
            None => NodeView::Identifier(x),
        },
        NodeView::Program(v) => NodeView::Program(subst_list(v, params, args)),
        NodeView::Function { name, params: ps, return_type, body, is_async } => NodeView::Function {
            name,
            params: ps,
            return_type,
            body: subst_list(body, params, args),
            is_async,
        },
        NodeView::VariableDeclaration { name, type_annotation, value, is_mutable } => NodeView::VariableDeclaration {
            name,
            type_annotation,
            value: Box::new(subst(*value, params, args)),
            is_mutable,
        },
        NodeView::Assignment { target, value } => NodeView::Assignment {
            target: Box::new(subst(*target, params, args)),
            value: Box::new(subst(*value, params, args)),
        },
        NodeView::If { condition, then_branch, else_branch } => NodeView::If {
            condition: Box::new(subst(*condition, params, args)),
            then_branch: subst_list(then_branch, params, args),
            else_branch: match else_branch {
                Some(e) => Some(subst_list(e, params, args)),
                None => None,
            },
        },
        NodeView::IfExpression { condition, then_branch, else_branch } => NodeView::IfExpression {
            condition: Box::new(subst(*condition, params, args)),
            then_branch: Box::new(subst(*then_branch, params, args)),
            else_branch: match else_branch {
                Some(e) => Some(Box::new(subst(*e, params, args))),
                None => None,
            },
        },
        NodeView::While { condition, body } => NodeView::While {
            condition: Box::new(subst(*condition, params, args)),
            body: subst_list(body, params, args),
        },
        NodeView::Return(v) => NodeView::Return(
            match v {
                Some(e) => Some(Box::new(subst(*e, params, args))),
                None => None,
            },
        ),
        NodeView::Block(v) => NodeView::Block(subst_list(v, params, args)),
        NodeView::BinaryOperation { left, operator, right } => NodeView::BinaryOperation {
            left: Box::new(subst(*left, params, args)),
            operator,
            right: Box::new(subst(*right, params, args)),
        },
        NodeView::UnaryOperation { operator, operand } => NodeView::UnaryOperation {
            operator,
            operand: Box::new(subst(*operand, params, args)),
        },
        NodeView::FunctionCall { name, arguments } => NodeView::FunctionCall {
            name,
            arguments: subst_list(arguments, params, args),
        },
        NodeView::ArrayLiteral(v) => NodeView::ArrayLiteral(subst_list(v, params, args)),
        NodeView::ArrayIndex { array, index } => NodeView::ArrayIndex {
            array: Box::new(subst(*array, params, args)),
            index: Box::new(subst(*index, params, args)),
        },
        _ => n,
    }
}

/// Each node of the list with its parameters replaced.
pub open spec fn subst_list(v: Seq<NodeView>, params: Seq<Seq<char>>, args: Seq<NodeView>) -> Seq<NodeView>
    decreases v,
{
    if v.len() == 0 {
        Seq::empty()
    } else {
        subst_list(v.drop_last(), params, args).push(subst(v.last(), params, args))
    }
}

/// The index of the macro with the given name, or -1.
pub open spec fn macro_index(defs: Seq<MacroDefinition>, name: Seq<char>) -> int
    decreases defs.len(),
{
    if defs.len() == 0 {
        -1
    } else if defs.last().name@ == name {
        defs.len() - 1
    } else {
        macro_index(defs.drop_last(), name)
    }
}

/// The message when macro expansion nests too deeply.
pub open spec fn depth_message() -> Seq<char> {
    "Maximum macro expansion depth exceeded"@
}

/// The message when a macro is called with the wrong number of arguments.
pub open spec fn arity_message(name: Seq<char>, expected: nat, got: nat) -> Seq<char> {
    "Macro '"@ + name + "' expects "@ + decimal(expected) + " arguments but got "@ + decimal(got)
}

/// The expansion of a node: a call of a macro becomes the block of the macro's
/// body with the arguments put in for the parameters; blocks, functions,
/// conditionals, loops and binary operations have their children expanded; every
/// other node stays as it is. An error is the message of the first failure.
pub open spec fn spec_expand(defs: Seq<MacroDefinition>, blocked: bool, n: NodeView) -> Result<NodeView, Seq<char>>
    decreases n,
{
    if blocked {
        Err(depth_message())
    } else {
        match n {
            NodeView::FunctionCall { name, arguments } => {
                let k = macro_index(defs, name);
                if 0 <= k < defs.len() {
                    let d = defs[k];
                    if arguments.len() != d.params@.len() {
                        Err(arity_message(d.name@, d.params@.len(), arguments.len()))
                    } else {
                        Ok(NodeView::Block(subst_list(nodes_view(d.body@), texts(d.params@), arguments)))
                    }
                } else {
                    Ok(n)
                }
            },
            NodeView::Block(v) => match spec_expand_list(defs, blocked, v) {
                Ok(w) => Ok(NodeView::Block(w)),
                Err(e) => Err(e),
            },
            NodeView::Function { name, params, return_type, body, is_async } => match spec_expand_list(defs, blocked, body) {
                Ok(w) => Ok(NodeView::Function { name, params, return_type, body: w, is_async }),
                Err(e) => Err(e),
            },
            NodeView::If { condition, then_branch, else_branch } => match spec_expand(defs, blocked, *condition) {
                Ok(c) => match spec_expand_list(defs, blocked, then_branch) {
                    Ok(t) => match else_branch {
                        Some(e) => match spec_expand_list(defs, blocked, e) {
                            Ok(f) => Ok(NodeView::If { condition: Box::new(c), then_branch: t, else_branch: Some(f) }),
                            Err(m) => Err(m),
                        },
                        None => Ok(NodeView::If { condition: Box::new(c), then_branch: t, else_branch: None }),
                    },
                    Err(m) => Err(m),
                },
                Err(m) => Err(m),
            },
            NodeView::While { condition, body } => match spec_expand(defs, blocked, *condition) {
                Ok(c) => match spec_expand_list(defs, blocked, body) {
                    Ok(b) => Ok(NodeView::While { condition: Box::new(c), body: b }),
                    Err(m) => Err(m),
                },
                Err(m) => Err(m),
            },
            NodeView::BinaryOperation { left, operator, right } => match spec_expand(defs, blocked, *left) {
                Ok(l) => match spec_expand(defs, blocked, *right) {
                    Ok(r) => Ok(NodeView::BinaryOperation { left: Box::new(l), operator, right: Box::new(r) }),
                    Err(m) => Err(m),
                },
                Err(m) => Err(m),
            },
            _ => Ok(n),
        }
    }
}

/// The expansions of a list of nodes, in order, or the first failure.
pub open spec fn spec_expand_list(defs: Seq<MacroDefinition>, blocked: bool, v: Seq<NodeView>) -> Result<Seq<NodeView>, Seq<char>>
    decreases v,
{
    if v.len() == 0 {
        Ok(Seq::empty())
    } else {
        match spec_expand_list(defs, blocked, v.drop_last()) {
            Ok(w) => match spec_expand(defs, blocked, v.last()) {
                Ok(x) => Ok(w.push(x)),
                Err(m) => Err(m),
            },
            Err(m) => Err(m),
        }
    }
}

proof fn lemma_subst_list_push(v: Seq<NodeView>, x: NodeView, params: Seq<Seq<char>>, args: Seq<NodeView>)
    ensures
        subst_list(v.push(x), params, args) == subst_list(v, params, args).push(subst(x, params, args)),
{
    assert(v.push(x).drop_last() =~= v);
}

proof fn lemma_expand_list_push(defs: Seq<MacroDefinition>, blocked: bool, v: Seq<NodeView>, x: NodeView)
    ensures
        spec_expand_list(defs, blocked, v.push(x)) == (match spec_expand_list(defs, blocked, v) {
            Ok(w) => match spec_expand(defs, blocked, x) {
                Ok(y) => Ok(w.push(y)),
                Err(m) => Err(m),
            },
            Err(m) => Err::<Seq<NodeView>, Seq<char>>(m),
        }),
{
    assert(v.push(x).drop_last() =~= v);
}

/// The argument node for the identifier, if it names a parameter.
fn find_replacement(params: &Vec<String>, args: &Vec<ASTNode>, x: &String) -> (r: Option<usize>)
    requires
        params@.len() == args@.len(),
    ensures
        match replacement(texts(params@), nodes_view(args@), x@) {
            Some(a) => r matches Some(k) && k < args@.len() && node_view(args@[k as int]) == a,
            None => r is None,
        },
{
    proof {
        lemma_nodes_view(args@);
    }
    let ghost ps = texts(params@);
    let ghost avs = nodes_view(args@);
    let mut i: usize = params.len();
    proof {
        assert(ps.subrange(0, ps.len() as int) =~= ps);
    }
    while i > 0
        invariant
            i <= params@.len(),
            params@.len() == args@.len(),
            ps == texts(params@),
            avs == nodes_view(args@),
            avs.len() == args@.len(),
            forall|k: int| 0 <= k < args@.len() ==> #[trigger] avs[k] == node_view(args@[k]),
            replacement(ps, avs, x@) == replacement(ps.subrange(0, i as int), avs, x@),
        decreases i,
    {
        let ghost pre = ps.subrange(0, i as int);
        if str_eq(params[i - 1].as_str(), x.as_str()) {
            proof {
                assert(pre.last() == params@[i - 1]@);
            }
            return Some(i - 1);
        }
        proof {
            assert(pre.drop_last() =~= ps.subrange(0, i - 1));
        }
        i = i - 1;
    }
    None
}

/// The node with every identifier that names a parameter replaced by a copy of
/// its argument.
pub fn substitute(n: &ASTNode, params: &Vec<String>, args: &Vec<ASTNode>) -> (r: ASTNode)
    requires
        params@.len() == args@.len(),
    ensures
        r@ == subst(n@, texts(params@), nodes_view(args@)),
    decreases n,
{
    let ghost ps = texts(params@);
    let ghost avs = nodes_view(args@);
    match n {
        ASTNode::Identifier(x) => match find_replacement(params, args, x) {
            Some(k) => args[k].duplicate(),
            None => ASTNode::Identifier(x.clone()),
        },
        ASTNode::Program(v) => ASTNode::Program(substitute_list(v, params, args)),
        ASTNode::Function { name, params: fparams, return_type, body, is_async } => ASTNode::Function {
            name: name.clone(),
            params: copy_params(fparams),
            return_type: copy_opt_string(return_type),
            body: substitute_list(body, params, args),
            is_async: *is_async,
        },
        ASTNode::VariableDeclaration { name, type_annotation, value, is_mutable } => ASTNode::VariableDeclaration {
            name: name.clone(),
            type_annotation: copy_opt_string(type_annotation),
            value: Box::new(substitute(value, params, args)),
            is_mutable: *is_mutable,
        },
        ASTNode::Assignment { target, value } => ASTNode::Assignment {
            target: Box::new(substitute(target, params, args)),
            value: Box::new(substitute(value, params, args)),
        },
        ASTNode::If { condition, then_branch, else_branch } => ASTNode::If {
            condition: Box::new(substitute(condition, params, args)),
            then_branch: substitute_list(then_branch, params, args),
            else_branch: match else_branch {
                Some(e) => Some(substitute_list(e, params, args)),
                None => None,
            },
        },
        ASTNode::IfExpression { condition, then_branch, else_branch } => ASTNode::IfExpression {
            condition: Box::new(substitute(condition, params, args)),
            then_branch: Box::new(substitute(then_branch, params, args)),
            else_branch: match else_branch {
                Some(e) => Some(Box::new(substitute(e, params, args))),
                None => None,
            },
        },
        ASTNode::While { condition, body } => ASTNode::While {
            condition: Box::new(substitute(condition, params, args)),
            body: substitute_list(body, params, args),
        },
        ASTNode::Return(v) => ASTNode::Return(
            match v {
                Some(e) => Some(Box::new(substitute(e, params, args))),
                None => None,
            },
        ),
        ASTNode::Block(v) => ASTNode::Block(substitute_list(v, params, args)),
        ASTNode::BinaryOperation { left, operator, right } => ASTNode::BinaryOperation {
            left: Box::new(substitute(left, params, args)),
            operator: operator.clone(),
            right: Box::new(substitute(right, params, args)),
        },
        ASTNode::UnaryOperation { operator, operand } => ASTNode::UnaryOperation {
            operator: operator.clone(),
            operand: Box::new(substitute(operand, params, args)),
        },
        ASTNode::FunctionCall { name, arguments } => ASTNode::FunctionCall {
            name: name.clone(),
            arguments: substitute_list(arguments, params, args),
        },
        ASTNode::ArrayLiteral(v) => ASTNode::ArrayLiteral(substitute_list(v, params, args)),
        ASTNode::ArrayIndex { array, index } => ASTNode::ArrayIndex {
            array: Box::new(substitute(array, params, args)),
            index: Box::new(substitute(index, params, args)),
        },
        _ => n.duplicate(),
    }
}

/// Each node of the list with its parameters replaced.
pub fn substitute_list(v: &Vec<ASTNode>, params: &Vec<String>, args: &Vec<ASTNode>) -> (r: Vec<ASTNode>)
    requires
        params@.len() == args@.len(),
    ensures
        nodes_view(r@) == subst_list(nodes_view(v@), texts(params@), nodes_view(args@)),
    decreases v,
{
    let ghost ps = texts(params@);
    let ghost avs = nodes_view(args@);
    let mut out: Vec<ASTNode> = Vec::new();
    let mut i: usize = 0;
    while i < v.len()
        invariant
            i <= v@.len(),
            params@.len() == args@.len(),
            ps == texts(params@),
            avs == nodes_view(args@),
            nodes_view(out@) == subst_list(nodes_view(v@.subrange(0, i as int)), ps, avs),
        decreases v.len() - i,
    {
        let x = substitute(&v[i], params, args);
        proof {
            lemma_nodes_view_push(out@, x);
            lemma_nodes_view_push(v@.subrange(0, i as int), v@[i as int]);
            assert(v@.subrange(0, i + 1) =~= v@.subrange(0, i as int).push(v@[i as int]));
            lemma_subst_list_push(nodes_view(v@.subrange(0, i as int)), node_view(v@[i as int]), ps, avs);
        }
        out.push(x);
        i = i + 1;
    }
    proof {
        assert(v@.subrange(0, v@.len() as int) =~= v@);
    }
    out
}

fn copy_strings(v: &Vec<String>) -> (r: Vec<String>)
    ensures
        texts(r@) == texts(v@),
{
    let mut out: Vec<String> = Vec::new();
    let mut i: usize = 0;
    while i < v.len()
        invariant
            i <= v@.len(),
            out@.len() == i,
            forall|k: int| 0 <= k < i ==> (#[trigger] out@[k])@ == v@[k]@,
        decreases v.len() - i,
    {
        out.push(v[i].clone());
        i = i + 1;
    }
    assert(texts(out@) =~= texts(v@));
    out
}

impl MacroExpander {
    /// The macros known, in the order they were registered.
    pub closed spec fn spec_definitions(&self) -> Seq<MacroDefinition> {
        self.definitions@
    }

    /// Whether expansion is refused for nesting too deeply.
    pub closed spec fn spec_blocked(&self) -> bool {
        self.expansion_depth >= self.max_depth
    }

    /// No two macros share a name.
    pub open spec fn wf(&self) -> bool {
        forall|i: int, j: int| 0 <= i < j < self.spec_definitions().len() ==> #[trigger] self.spec_definitions()[i].name@
            != #[trigger] self.spec_definitions()[j].name@
    }

    /// An expander with no macro that allows expansion up to the given depth.
    pub fn new(max_depth: usize) -> (r: Self)
        ensures
            r.wf(),
            r.spec_definitions().len() == 0,
            r.spec_blocked() == (max_depth == 0),
    {
        MacroExpander { definitions: Vec::new(), expansion_depth: 0, max_depth }
    }

    fn find_macro(&self, name: &String) -> (r: Option<usize>)
        ensures
            match r {
                Some(k) => k as int == macro_index(self.spec_definitions(), name@) && k < self.spec_definitions().len(),
                None => macro_index(self.spec_definitions(), name@) == -1,
            },
    {
        let ghost d = self.spec_definitions();
        let mut i: usize = self.definitions.len();
        proof {
            assert(d.subrange(0, d.len() as int) =~= d);
        }
        while i > 0
            invariant
                i <= d.len(),
                d == self.spec_definitions(),
                macro_index(d, name@) == macro_index(d.subrange(0, i as int), name@),
            decreases i,
        {
            let ghost pre = d.subrange(0, i as int);
            if str_eq(self.definitions[i - 1].name.as_str(), name.as_str()) {
                return Some(i - 1);
            }
            proof {
                assert(pre.drop_last() =~= d.subrange(0, i - 1));
            }
            i = i - 1;
        }
        None
    }

    /// Registers a macro; fails when a macro of that name is known.
    pub fn register_macro(&mut self, def: MacroDefinition) -> (r: Result<(), IoError>)
        requires
            old(self).wf(),
        ensures
            final(self).wf(),
            final(self).spec_blocked() == old(self).spec_blocked(),
            macro_index(old(self).spec_definitions(), def.name@) == -1 ==> r is Ok
                && final(self).spec_definitions() == old(self).spec_definitions().push(def),
            macro_index(old(self).spec_definitions(), def.name@) != -1 ==> final(self).spec_definitions()
                == old(self).spec_definitions() && (r matches Err(e) && e.spec_kind() == ErrorKind::ValidationError
                && e.spec_message() == "Macro '"@ + def.name@ + "' is already defined"@),
    {
        match self.find_macro(&def.name) {
            Some(_) => {
                let mut m = to_owned_string("Macro '");
                push_str(&mut m, def.name.as_str());
                push_str(&mut m, "' is already defined");
                Err(IoError::validation_error(m.as_str()))
            },
            None => {
                proof {
                    lemma_macro_index_absent(self.spec_definitions(), def.name@);
                }
                self.definitions.push(def);
                Ok(())
            },
        }
    }

    fn expand_macro(&self, k: usize, args: &Vec<ASTNode>) -> (r: Result<ASTNode, IoError>)
        requires
            k < self.spec_definitions().len(),
        ensures
            ({
                let d = self.spec_definitions()[k as int];
                if args@.len() != d.params@.len() {
                    r matches Err(e) && e.spec_kind() == ErrorKind::ValidationError
                        && e.spec_message() == arity_message(d.name@, d.params@.len(), args@.len())
                } else {
                    r matches Ok(x) && x@ == NodeView::Block(subst_list(nodes_view(d.body@), texts(d.params@), nodes_view(args@)))
                }
            }),
    {
        let def = &self.definitions[k];
        if args.len() != def.params.len() {
            let mut m = to_owned_string("Macro '");
            push_str(&mut m, def.name.as_str());
            push_str(&mut m, "' expects ");
            push_decimal(&mut m, def.params.len());
            push_str(&mut m, " arguments but got ");
            push_decimal(&mut m, args.len());
            return Err(IoError::validation_error(m.as_str()));
        }
        let body = substitute_list(&def.body, &def.params, args);
        Ok(ASTNode::Block(body))
    }

    /// The expansion of the node: calls of macros are replaced by the macros'
    /// bodies with the arguments put in.
    pub fn expand(&mut self, node: &ASTNode) -> (r: Result<ASTNode, IoError>)
        requires
            old(self).wf(),
        ensures
            final(self).wf(),
            final(self).spec_definitions() == old(self).spec_definitions(),
            final(self).spec_blocked() == old(self).spec_blocked(),
            match spec_expand(old(self).spec_definitions(), old(self).spec_blocked(), node@) {
                Ok(v) => r matches Ok(x) && x@ == v,
                Err(m) => r matches Err(e) && e.spec_message() == m,
            },
        decreases node, 1nat,
    {
        if self.expansion_depth >= self.max_depth {
            return Err(IoError::runtime_error("Maximum macro expansion depth exceeded"));
        }
        match node {
            ASTNode::FunctionCall { name, arguments } => {
                match self.find_macro(name) {
                    Some(k) => {
                        proof {
                            lemma_nodes_view(arguments@);
                        }
                        self.expand_macro(k, arguments)
                    },
                    None => Ok(node.duplicate()),
                }
            },
            _ => self.expand_children(node),
        }
    }

    fn expand_list(&mut self, v: &Vec<ASTNode>) -> (r: Result<Vec<ASTNode>, IoError>)
        requires
            old(self).wf(),
        ensures
            final(self).wf(),
            final(self).spec_definitions() == old(self).spec_definitions(),
            final(self).spec_blocked() == old(self).spec_blocked(),
            match spec_expand_list(old(self).spec_definitions(), old(self).spec_blocked(), nodes_view(v@)) {
                Ok(w) => r matches Ok(x) && nodes_view(x@) == w,
                Err(m) => r matches Err(e) && e.spec_message() == m,
            },
        decreases v, 0nat,
    {
        let ghost defs = self.spec_definitions();
        let ghost blocked = self.spec_blocked();
        let mut out: Vec<ASTNode> = Vec::new();
        let mut i: usize = 0;
        proof {
            assert(v@.subrange(0, 0) =~= Seq::<ASTNode>::empty());
        }
        while i < v.len()
            invariant
                i <= v@.len(),
                self.wf(),
                defs == self.spec_definitions(),
                blocked == self.spec_blocked(),
                defs == old(self).spec_definitions(),
                blocked == old(self).spec_blocked(),
                spec_expand_list(defs, blocked, nodes_view(v@.subrange(0, i as int))) == Ok::<Seq<NodeView>, Seq<char>>(nodes_view(out@)),
            decreases v.len() - i,
        {
            proof {
                assert(v@.subrange(0, i + 1) =~= v@.subrange(0, i as int).push(v@[i as int]));
                lemma_nodes_view_push(v@.subrange(0, i as int), v@[i as int]);
                lemma_expand_list_push(defs, blocked, nodes_view(v@.subrange(0, i as int)), node_view(v@[i as int]));
            }
            let x = match self.expand(&v[i]) {
                Ok(x) => x,
                Err(e) => {
                    proof {
                        lemma_nodes_view(v@);
                        lemma_nodes_view_prefix(v@, i as int);
                        lemma_expand_list_err(defs, blocked, nodes_view(v@), i as int);
                    }
                    return Err(e);
                },
            };
            proof {
                lemma_nodes_view_push(out@, x);
            }
            out.push(x);
            i = i + 1;
        }
        proof {
            assert(v@.subrange(0, v@.len() as int) =~= v@);
        }
        Ok(out)
    }

    fn expand_children(&mut self, node: &ASTNode) -> (r: Result<ASTNode, IoError>)
        requires
            old(self).wf(),
            !old(self).spec_blocked(),
            !(node is FunctionCall),
        ensures
            final(self).wf(),
            final(self).spec_definitions() == old(self).spec_definitions(),
            final(self).spec_blocked() == old(self).spec_blocked(),
            match spec_expand(old(self).spec_definitions(), old(self).spec_blocked(), node@) {
                Ok(v) => r matches Ok(x) && x@ == v,
                Err(m) => r matches Err(e) && e.spec_message() == m,
            },
        decreases node, 0nat,
    {
        match node {
            ASTNode::Block(nodes) => {
                match self.expand_list(nodes) {
                    Ok(w) => Ok(ASTNode::Block(w)),
                    Err(e) => Err(e),
                }
            },
            ASTNode::Function { name, params, return_type, body, is_async } => {
                match self.expand_list(body) {
                    Ok(w) => Ok(
                        ASTNode::Function {
                            name: name.clone(),
                            params: copy_params(params),
                            return_type: copy_opt_string(return_type),
                            body: w,
                            is_async: *is_async,
                        },
                    ),
                    Err(e) => Err(e),
                }
            },
            ASTNode::If { condition, then_branch, else_branch } => {
                let c = match self.expand(condition) {
                    Ok(c) => c,
                    Err(e) => return Err(e),
                };
                let t = match self.expand_list(then_branch) {
                    Ok(t) => t,
                    Err(e) => return Err(e),
                };
                let e = match else_branch {
                    Some(nodes) => match self.expand_list(nodes) {
                        Ok(f) => Some(f),
                        Err(e) => return Err(e),
                    },
                    None => None,
                };
                Ok(ASTNode::If { condition: Box::new(c), then_branch: t, else_branch: e })
            },
            ASTNode::While { condition, body } => {
                let c = match self.expand(condition) {
                    Ok(c) => c,
                    Err(e) => return Err(e),
                };
                let b = match self.expand_list(body) {
                    Ok(b) => b,
                    Err(e) => return Err(e),
                };
                Ok(ASTNode::While { condition: Box::new(c), body: b })
            },
            ASTNode::BinaryOperation { left, operator, right } => {
                let l = match self.expand(left) {
                    Ok(l) => l,
                    Err(e) => return Err(e),
                };
                let r = match self.expand(right) {
                    Ok(r) => r,
                    Err(e) => return Err(e),
                };
                Ok(ASTNode::BinaryOperation { left: Box::new(l), operator: operator.clone(), right: Box::new(r) })
            },
            _ => Ok(node.duplicate()),
        }
    }
}

/// A name absent from the macros leaves them pairwise distinct when added.
proof fn lemma_macro_index_absent(defs: Seq<MacroDefinition>, name: Seq<char>)
    requires
        macro_index(defs, name) == -1,
    ensures
        forall|k: int| 0 <= k < defs.len() ==> #[trigger] defs[k].name@ != name,
    decreases defs.len(),
{
    if defs.len() > 0 {
        lemma_macro_index_absent(defs.drop_last(), name);
        assert forall|k: int| 0 <= k < defs.len() implies #[trigger] defs[k].name@ != name by {
            if k < defs.len() - 1 {
                assert(defs.drop_last()[k] == defs[k]);
            }
        }
    }
}

/// A failure at position `i` of a list whose prefix expanded is the failure of
/// the whole list.
proof fn lemma_expand_list_err(defs: Seq<MacroDefinition>, blocked: bool, v: Seq<NodeView>, i: int)
    requires
        0 <= i < v.len(),
        spec_expand_list(defs, blocked, v.subrange(0, i)) is Ok,
        spec_expand(defs, blocked, v[i]) is Err,
    ensures
        spec_expand_list(defs, blocked, v) == Err::<Seq<NodeView>, Seq<char>>(spec_expand(defs, blocked, v[i])->Err_0),
    decreases v.len() - i,
{
    assert(v.subrange(0, i + 1).drop_last() =~= v.subrange(0, i));
    lemma_expand_list_err_grow(defs, blocked, v, i + 1, spec_expand(defs, blocked, v[i])->Err_0);
}

proof fn lemma_expand_list_err_grow(defs: Seq<MacroDefinition>, blocked: bool, v: Seq<NodeView>, j: int, m: Seq<char>)
    requires
        0 < j <= v.len(),
        spec_expand_list(defs, blocked, v.subrange(0, j)) == Err::<Seq<NodeView>, Seq<char>>(m),
    ensures
        spec_expand_list(defs, blocked, v) == Err::<Seq<NodeView>, Seq<char>>(m),
    decreases v.len() - j,
{
    if j < v.len() {
        assert(v.subrange(0, j + 1).drop_last() =~= v.subrange(0, j));
        lemma_expand_list_err_grow(defs, blocked, v, j + 1, m);
    } else {
        assert(v.subrange(0, j) =~= v);
    }
}


/// A parameter named `x` that has an argument: at index `i`, below the
/// number of arguments.
pub open spec fn bound_param(params: Seq<Seq<char>>, args: Seq<NodeView>, x: Seq<char>, i: int) -> bool {
    0 <= i < params.len() && i < args.len() && params[i] == x
}

/// An identifier is replaced exactly when some parameter of that name has an
/// argument, and then by the argument of the last such parameter; parameters
/// pair with arguments by position.
pub proof fn law_parameters_pair_with_arguments(params: Seq<Seq<char>>, args: Seq<NodeView>, x: Seq<char>)
    ensures
        replacement(params, args, x) is Some <==> exists|i: int| bound_param(params, args, x, i),
        replacement(params, args, x) matches Some(a) ==> exists|j: int|
            #[trigger] bound_param(params, args, x, j) && a == args[j] && forall|k: int|
                j < k ==> !bound_param(params, args, x, k),
    decreases params.len(),
{
    if params.len() > 0 {
        let n = params.len() - 1;
        law_parameters_pair_with_arguments(params.drop_last(), args, x);
        if params.last() == x && params.len() <= args.len() {
            assert(bound_param(params, args, x, n));
            assert forall|k: int| n < k implies !bound_param(params, args, x, k) by {}
        } else {
            assert forall|i: int| bound_param(params, args, x, i) implies bound_param(params.drop_last(), args, x, i) by {
                if i == n {
                    assert(params[n] == params.last());
                    assert(params.len() > args.len());
                }
            }
            assert forall|i: int| bound_param(params.drop_last(), args, x, i) implies bound_param(params, args, x, i) by {}
            if replacement(params, args, x) is Some {
                let j = choose|j: int|
                    #[trigger] bound_param(params.drop_last(), args, x, j) && replacement(params, args, x)->0 == args[j]
                        && forall|k: int| j < k ==> !bound_param(params.drop_last(), args, x, k);
                assert(bound_param(params, args, x, j));
                assert forall|k: int| j < k implies !bound_param(params, args, x, k) by {
                    if k < n {
                        assert(!bound_param(params.drop_last(), args, x, k));
                    }
                }
            }
        }
    }
}

/// With distinct parameter names, the identifier of each parameter that has an
/// argument is replaced by the argument at the same position, and an
/// identifier that names no parameter stays.
pub proof fn law_distinct_parameters_substitute(params: Seq<Seq<char>>, args: Seq<NodeView>, i: int, y: Seq<char>)
    requires
        forall|a: int, b: int| 0 <= a < b < params.len() ==> params[a] != params[b],
    ensures
        0 <= i < params.len() && i < args.len() ==> subst(NodeView::Identifier(params[i]), params, args) == args[i],
        !params.contains(y) ==> subst(NodeView::Identifier(y), params, args) == NodeView::Identifier(y),
{
    law_parameters_pair_with_arguments(params, args, y);
    if !params.contains(y) {
        if replacement(params, args, y) is Some {
            let j = choose|j: int| #[trigger] bound_param(params, args, y, j);
            assert(params[j] == y);
        }
    }
    if 0 <= i < params.len() && i < args.len() {
        let x = params[i];
        law_parameters_pair_with_arguments(params, args, x);
        assert(bound_param(params, args, x, i));
        let a = replacement(params, args, x)->0;
        let j = choose|j: int|
            #[trigger] bound_param(params, args, x, j) && a == args[j] && forall|k: int| j < k ==> !bound_param(params, args, x, k);
        if j != i {
            if j < i {
                assert(!bound_param(params, args, x, i));
            } else {
                assert(params[i] != params[j]);
            }
        }
    }
}

/// With no parameters, substituting into a node gives the node back: the
/// substitution keeps every part of the tree in its place.
pub proof fn law_no_parameters_leave_node(n: NodeView, args: Seq<NodeView>)
    ensures
        subst(n, Seq::empty(), args) == n,
    decreases n,
{
    match n {
        NodeView::Program(v) => {
            law_no_parameters_leave_list(v, args);
        },
        NodeView::Function { name, params, return_type, body, is_async } => {
            law_no_parameters_leave_list(body, args);
        },
        NodeView::VariableDeclaration { name, type_annotation, value, is_mutable } => {
            law_no_parameters_leave_node(*value, args);
        },
        NodeView::Assignment { target, value } => {
            law_no_parameters_leave_node(*target, args);
            law_no_parameters_leave_node(*value, args);
        },
        NodeView::If { condition, then_branch, else_branch } => {
            law_no_parameters_leave_node(*condition, args);
            law_no_parameters_leave_list(then_branch, args);
            match else_branch {
                Some(e) => {
                    law_no_parameters_leave_list(e, args);
                },
                None => {},
            }
        },
        NodeView::IfExpression { condition, then_branch, else_branch } => {
            law_no_parameters_leave_node(*condition, args);
            law_no_parameters_leave_node(*then_branch, args);
            match else_branch {
                Some(e) => {
                    law_no_parameters_leave_node(*e, args);
                },
                None => {},
            }
        },
        NodeView::While { condition, body } => {
            law_no_parameters_leave_node(*condition, args);
            law_no_parameters_leave_list(body, args);
        },
        NodeView::Return(v) => {
            match v {
                Some(e) => {
                    law_no_parameters_leave_node(*e, args);
                },
                None => {},
            }
        },
        NodeView::Block(v) => {
            law_no_parameters_leave_list(v, args);
        },
        NodeView::BinaryOperation { left, operator, right } => {
            law_no_parameters_leave_node(*left, args);
            law_no_parameters_leave_node(*right, args);
        },
        NodeView::UnaryOperation { operator, operand } => {
            law_no_parameters_leave_node(*operand, args);
        },
        NodeView::FunctionCall { name, arguments } => {
            law_no_parameters_leave_list(arguments, args);
        },
        NodeView::ArrayLiteral(v) => {
            law_no_parameters_leave_list(v, args);
        },
        NodeView::ArrayIndex { array, index } => {
            law_no_parameters_leave_node(*array, args);
            law_no_parameters_leave_node(*index, args);
        },
        _ => {},
    }
}

/// With no parameters, substituting into a list of nodes gives the list back.
pub proof fn law_no_parameters_leave_list(v: Seq<NodeView>, args: Seq<NodeView>)
    ensures
        subst_list(v, Seq::empty(), args) == v,
    decreases v,
{
    if v.len() > 0 {
        law_no_parameters_leave_list(v.drop_last(), args);
        law_no_parameters_leave_node(v.last(), args);
        assert(v.drop_last().push(v.last()) == v);
    }
}

} // verus!
