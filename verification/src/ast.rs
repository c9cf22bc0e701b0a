//! The abstract syntax tree.
//!
//! Number literals with a fractional part are kept as their source text
//! (`FloatLiteral`); the compiler front end does not compute with them.
use vstd::prelude::*;

verus! {

/// A node of the syntax tree.
#[derive(Debug, PartialEq)]
#[allow(inconsistent_fields)]
pub enum ASTNode {
    Program(Vec<ASTNode>),
    Function {
        name: String,
        params: Vec<Parameter>,
        return_type: Option<String>,
        body: Vec<ASTNode>,
        is_async: bool,
    },
    VariableDeclaration {
        name: String,
        type_annotation: Option<String>,
        value: Box<ASTNode>,
        is_mutable: bool,
    },
    Assignment {
        target: Box<ASTNode>,
        value: Box<ASTNode>,
    },
    If {
        condition: Box<ASTNode>,
        then_branch: Vec<ASTNode>,
        else_branch: Option<Vec<ASTNode>>,
    },
    IfExpression {
        condition: Box<ASTNode>,
        then_branch: Box<ASTNode>,
        else_branch: Option<Box<ASTNode>>,
    },
    While {
        condition: Box<ASTNode>,
        body: Vec<ASTNode>,
    },
    Return(Option<Box<ASTNode>>),
    Break,
    Continue,
    Block(Vec<ASTNode>),
    BinaryOperation {
        left: Box<ASTNode>,
        operator: String,
        right: Box<ASTNode>,
    },
    UnaryOperation {
        operator: String,
        operand: Box<ASTNode>,
    },
    FunctionCall {
        name: String,
        arguments: Vec<ASTNode>,
    },
    ArrayLiteral(Vec<ASTNode>),
    ArrayIndex {
        array: Box<ASTNode>,
        index: Box<ASTNode>,
    },
    Identifier(String),
    IntegerLiteral(i64),
    FloatLiteral(String),
    StringLiteral(String),
    BooleanLiteral(bool),
}

/// A function parameter: its name and the name of its type.
#[derive(Debug, PartialEq)]
pub struct Parameter {
    pub name: String,
    pub type_annotation: String,
}

impl Parameter {
    /// A copy of the parameter.
    pub fn duplicate(&self) -> (r: Parameter)
        ensures
            r.name@ == self.name@,
            r.type_annotation@ == self.type_annotation@,
    {
        Parameter { name: self.name.clone(), type_annotation: self.type_annotation.clone() }
    }
}

/// The operator of a binary expression.
#[derive(Debug, Clone, Copy, PartialEq, Eq, Structural)]
pub enum BinaryOperator {
    Add,
    Subtract,
    Multiply,
    Divide,
    Modulo,
    Equal,
    NotEqual,
    LessThan,
    LessThanEqual,
    GreaterThan,
    GreaterThanEqual,
    And,
    Or,
    BitwiseAnd,
    BitwiseOr,
    BitwiseXor,
    LeftShift,
    RightShift,
    /// Floating-point exponentiation.
    Power,
}

/// The operator of a unary expression.
#[derive(Debug, Clone, Copy, PartialEq, Eq, Structural)]
pub enum UnaryOperator {
    Negate,
    Not,
}

/// A type as written in a declaration.
#[derive(Debug)]
pub enum Type {
    I32,
    I64,
    F32,
    F64,
    Bool,
    String,
    Void,
    Array(Box<Type>),
    Function {
        params: Vec<Type>,
        ret: Box<Type>,
    },
    Struct {
        name: String,
        fields: Vec<(String, Type)>,
    },
    Pointer(Box<Type>),
    Unknown,
}

/// A struct declaration: its name and its fields with their types.
#[derive(Debug)]
pub struct StructDef {
    pub name: String,
    pub fields: Vec<(String, Type)>,
}

/// An import of items from a module path.
#[derive(Debug)]
pub struct Import {
    pub path: String,
    pub items: Vec<String>,
}

/// The operator spelled by a symbol, if any.
pub open spec fn spec_operator_of(sym: Seq<char>) -> Option<BinaryOperator> {
    if sym == seq!['+'] {
        Some(BinaryOperator::Add)
    } else if sym == seq!['-'] {
        Some(BinaryOperator::Subtract)
    } else if sym == seq!['*'] {
        Some(BinaryOperator::Multiply)
    } else if sym == seq!['/'] {
        Some(BinaryOperator::Divide)
    } else if sym == seq!['%'] {
        Some(BinaryOperator::Modulo)
    } else if sym == seq!['=', '='] {
        Some(BinaryOperator::Equal)
    } else if sym == seq!['!', '='] {
        Some(BinaryOperator::NotEqual)
    } else if sym == seq!['<'] {
        Some(BinaryOperator::LessThan)
    } else if sym == seq!['<', '='] {
        Some(BinaryOperator::LessThanEqual)
    } else if sym == seq!['>'] {
        Some(BinaryOperator::GreaterThan)
    } else if sym == seq!['>', '='] {
        Some(BinaryOperator::GreaterThanEqual)
    } else if sym == seq!['&', '&'] {
        Some(BinaryOperator::And)
    } else if sym == seq!['|', '|'] {
        Some(BinaryOperator::Or)
    } else if sym == seq!['&'] {
        Some(BinaryOperator::BitwiseAnd)
    } else if sym == seq!['|'] {
        Some(BinaryOperator::BitwiseOr)
    } else if sym == seq!['^'] {
        Some(BinaryOperator::BitwiseXor)
    } else if sym == seq!['<', '<'] {
        Some(BinaryOperator::LeftShift)
    } else if sym == seq!['>', '>'] {
        Some(BinaryOperator::RightShift)
    } else if sym == seq!['*', '*'] {
        Some(BinaryOperator::Power)
    } else {
        None
    }
}

/// The symbol that spells an operator.
pub open spec fn spec_symbol_of(op: BinaryOperator) -> Seq<char> {
    match op {
        BinaryOperator::Add => seq!['+'],
        BinaryOperator::Subtract => seq!['-'],
        BinaryOperator::Multiply => seq!['*'],
        BinaryOperator::Divide => seq!['/'],
        BinaryOperator::Modulo => seq!['%'],
        BinaryOperator::Equal => seq!['=', '='],
        BinaryOperator::NotEqual => seq!['!', '='],
        BinaryOperator::LessThan => seq!['<'],
        BinaryOperator::LessThanEqual => seq!['<', '='],
        BinaryOperator::GreaterThan => seq!['>'],
        BinaryOperator::GreaterThanEqual => seq!['>', '='],
        BinaryOperator::And => seq!['&', '&'],
        BinaryOperator::Or => seq!['|', '|'],
        BinaryOperator::BitwiseAnd => seq!['&'],
        BinaryOperator::BitwiseOr => seq!['|'],
        BinaryOperator::BitwiseXor => seq!['^'],
        BinaryOperator::LeftShift => seq!['<', '<'],
        BinaryOperator::RightShift => seq!['>', '>'],
        BinaryOperator::Power => seq!['*', '*'],
    }
}

impl BinaryOperator {
    /// The operator spelled by `sym` ("+", "==", "&&", ...), if any.
    pub fn from_symbol(sym: &str) -> (r: Option<BinaryOperator>)
        ensures
            r == spec_operator_of(sym@),
    {
        let c = crate::text::str_to_chars(sym);
        let n = c.len();
        if n == 1 {
            let a = c[0];
            assert(c@ == seq![a]);
            if a == '+' {
                Some(BinaryOperator::Add)
            } else if a == '-' {
                Some(BinaryOperator::Subtract)
            } else if a == '*' {
                Some(BinaryOperator::Multiply)
            } else if a == '/' {
                Some(BinaryOperator::Divide)
            } else if a == '%' {
                Some(BinaryOperator::Modulo)
            } else if a == '<' {
                Some(BinaryOperator::LessThan)
            } else if a == '>' {
                Some(BinaryOperator::GreaterThan)
            } else if a == '&' {
                Some(BinaryOperator::BitwiseAnd)
            } else if a == '|' {
                Some(BinaryOperator::BitwiseOr)
            } else if a == '^' {
                Some(BinaryOperator::BitwiseXor)
            } else {
                None
            }
        } else if n == 2 {
            let a = c[0];
            let b = c[1];
            assert(c@ == seq![a, b]);
            if a == '=' && b == '=' {
                Some(BinaryOperator::Equal)
            } else if a == '!' && b == '=' {
                Some(BinaryOperator::NotEqual)
            } else if a == '<' && b == '=' {
                Some(BinaryOperator::LessThanEqual)
            } else if a == '>' && b == '=' {
                Some(BinaryOperator::GreaterThanEqual)
            } else if a == '&' && b == '&' {
                Some(BinaryOperator::And)
            } else if a == '|' && b == '|' {
                Some(BinaryOperator::Or)
            } else if a == '<' && b == '<' {
                Some(BinaryOperator::LeftShift)
            } else if a == '>' && b == '>' {
                Some(BinaryOperator::RightShift)
            } else if a == '*' && b == '*' {
                Some(BinaryOperator::Power)
            } else {
                None
            }
        } else {
            None
        }
    }

    /// The symbol that spells the operator.
    pub fn symbol(&self) -> (r: &'static str)
        ensures
            r@ == spec_symbol_of(*self),
    {
        proof {
            reveal_strlit("+");
            reveal_strlit("-");
            reveal_strlit("*");
            reveal_strlit("/");
            reveal_strlit("%");
            reveal_strlit("==");
            reveal_strlit("!=");
            reveal_strlit("<");
            reveal_strlit("<=");
            reveal_strlit(">");
            reveal_strlit(">=");
            reveal_strlit("&&");
            reveal_strlit("||");
            reveal_strlit("&");
            reveal_strlit("|");
            reveal_strlit("^");
            reveal_strlit("<<");
            reveal_strlit(">>");
            reveal_strlit("**");
        }
        match self {
            BinaryOperator::Add => "+",
            BinaryOperator::Subtract => "-",
            BinaryOperator::Multiply => "*",
            BinaryOperator::Divide => "/",
            BinaryOperator::Modulo => "%",
            BinaryOperator::Equal => "==",
            BinaryOperator::NotEqual => "!=",
            BinaryOperator::LessThan => "<",
            BinaryOperator::LessThanEqual => "<=",
            BinaryOperator::GreaterThan => ">",
            BinaryOperator::GreaterThanEqual => ">=",
            BinaryOperator::And => "&&",
            BinaryOperator::Or => "||",
            BinaryOperator::BitwiseAnd => "&",
            BinaryOperator::BitwiseOr => "|",
            BinaryOperator::BitwiseXor => "^",
            BinaryOperator::LeftShift => "<<",
            BinaryOperator::RightShift => ">>",
            BinaryOperator::Power => "**",
        }
    }
}

} // verus!
verus! {

/// The abstract value of a syntax-tree node: text as characters, children as
/// sequences of abstract values.
#[allow(inconsistent_fields)]
pub enum NodeView {
    Program(Seq<NodeView>),
    Function {
        name: Seq<char>,
        params: Seq<(Seq<char>, Seq<char>)>,
        return_type: Option<Seq<char>>,
        body: Seq<NodeView>,
        is_async: bool,
    },
    VariableDeclaration {
        name: Seq<char>,
        type_annotation: Option<Seq<char>>,
        value: Box<NodeView>,
        is_mutable: bool,
    },
    Assignment { target: Box<NodeView>, value: Box<NodeView> },
    If { condition: Box<NodeView>, then_branch: Seq<NodeView>, else_branch: Option<Seq<NodeView>> },
    IfExpression { condition: Box<NodeView>, then_branch: Box<NodeView>, else_branch: Option<Box<NodeView>> },
    While { condition: Box<NodeView>, body: Seq<NodeView> },
    Return(Option<Box<NodeView>>),
    Break,
    Continue,
    Block(Seq<NodeView>),
    BinaryOperation { left: Box<NodeView>, operator: Seq<char>, right: Box<NodeView> },
    UnaryOperation { operator: Seq<char>, operand: Box<NodeView> },
    FunctionCall { name: Seq<char>, arguments: Seq<NodeView> },
    ArrayLiteral(Seq<NodeView>),
    ArrayIndex { array: Box<NodeView>, index: Box<NodeView> },
    Identifier(Seq<char>),
    IntegerLiteral(i64),
    FloatLiteral(Seq<char>),
    StringLiteral(Seq<char>),
    BooleanLiteral(bool),
}

/// The abstract values of parameters: (name, type name) pairs.
pub open spec fn params_view(v: Seq<Parameter>) -> Seq<(Seq<char>, Seq<char>)> {
    v.map_values(|p: Parameter| (p.name@, p.type_annotation@))
}

/// The abstract value of a node.
pub open spec fn node_view(n: ASTNode) -> NodeView
    decreases n,
{
    match n {
        ASTNode::Program(v) => NodeView::Program(nodes_view(v@)),
        ASTNode::Function { name, params, return_type, body, is_async } => NodeView::Function {
            name: name@,
            params: params_view(params@),
            return_type: match return_type {
                Some(t) => Some(t@),
                None => None,
            },
            body: nodes_view(body@),
            is_async,
        },
        ASTNode::VariableDeclaration { name, type_annotation, value, is_mutable } => NodeView::VariableDeclaration {
            name: name@,
            type_annotation: match type_annotation {
                Some(t) => Some(t@),
                None => None,
            },
            value: Box::new(node_view(*value)),
            is_mutable,
        },
        ASTNode::Assignment { target, value } => NodeView::Assignment {
            target: Box::new(node_view(*target)),
            value: Box::new(node_view(*value)),
        },
        ASTNode::If { condition, then_branch, else_branch } => NodeView::If {
            condition: Box::new(node_view(*condition)),
            then_branch: nodes_view(then_branch@),
            else_branch: match else_branch {
                Some(e) => Some(nodes_view(e@)),
                None => None,
            },
        },
        ASTNode::IfExpression { condition, then_branch, else_branch } => NodeView::IfExpression {
            condition: Box::new(node_view(*condition)),
            then_branch: Box::new(node_view(*then_branch)),
            else_branch: match else_branch {
                Some(e) => Some(Box::new(node_view(*e))),
                None => None,
            },
        },
        ASTNode::While { condition, body } => NodeView::While {
            condition: Box::new(node_view(*condition)),
            body: nodes_view(body@),
        },
        ASTNode::Return(v) => NodeView::Return(
            match v {
                Some(e) => Some(Box::new(node_view(*e))),
                None => None,
            },
        ),
        ASTNode::Break => NodeView::Break,
        ASTNode::Continue => NodeView::Continue,
        ASTNode::Block(v) => NodeView::Block(nodes_view(v@)),
        ASTNode::BinaryOperation { left, operator, right } => NodeView::BinaryOperation {
            left: Box::new(node_view(*left)),
            operator: operator@,
            right: Box::new(node_view(*right)),
        },
        ASTNode::UnaryOperation { operator, operand } => NodeView::UnaryOperation {
            operator: operator@,
            operand: Box::new(node_view(*operand)),
        },
        ASTNode::FunctionCall { name, arguments } => NodeView::FunctionCall {
            name: name@,
            arguments: nodes_view(arguments@),
        },
        ASTNode::ArrayLiteral(v) => NodeView::ArrayLiteral(nodes_view(v@)),
        ASTNode::ArrayIndex { array, index } => NodeView::ArrayIndex {
            array: Box::new(node_view(*array)),
            index: Box::new(node_view(*index)),
        },
        ASTNode::Identifier(s) => NodeView::Identifier(s@),
        ASTNode::IntegerLiteral(i) => NodeView::IntegerLiteral(i),
        ASTNode::FloatLiteral(s) => NodeView::FloatLiteral(s@),
        ASTNode::StringLiteral(s) => NodeView::StringLiteral(s@),
        ASTNode::BooleanLiteral(b) => NodeView::BooleanLiteral(b),
    }
}

/// The abstract values of a sequence of nodes.
pub open spec fn nodes_view(v: Seq<ASTNode>) -> Seq<NodeView>
    decreases v,
{
    if v.len() == 0 {
        Seq::empty()
    } else {
        nodes_view(v.drop_last()).push(node_view(v.last()))
    }
}

impl View for ASTNode {
    type V = NodeView;

    open spec fn view(&self) -> NodeView {
        node_view(*self)
    }
}

/// The views of a sequence, one per node.
pub proof fn lemma_nodes_view(v: Seq<ASTNode>)
    ensures
        nodes_view(v).len() == v.len(),
        forall|i: int| 0 <= i < v.len() ==> #[trigger] nodes_view(v)[i] == node_view(v[i]),
    decreases v.len(),
{
    if v.len() > 0 {
        lemma_nodes_view(v.drop_last());
        assert forall|i: int| 0 <= i < v.len() implies #[trigger] nodes_view(v)[i] == node_view(v[i]) by {
            if i < v.len() - 1 {
                assert(v.drop_last()[i] == v[i]);
            }
        }
    }
}

/// Two sequences of nodes with the same views, one by one, have the same view.
pub proof fn lemma_nodes_view_eq(a: Seq<ASTNode>, b: Seq<ASTNode>)
    requires
        a.len() == b.len(),
        forall|i: int| 0 <= i < a.len() ==> node_view(#[trigger] a[i]) == node_view(b[i]),
    ensures
        nodes_view(a) == nodes_view(b),
{
    lemma_nodes_view(a);
    lemma_nodes_view(b);
    assert(nodes_view(a) =~= nodes_view(b));
}

/// The views of a prefix are the prefix of the views.
pub proof fn lemma_nodes_view_prefix(v: Seq<ASTNode>, i: int)
    requires
        0 <= i <= v.len(),
    ensures
        nodes_view(v.subrange(0, i)) == nodes_view(v).subrange(0, i),
{
    lemma_nodes_view(v);
    lemma_nodes_view(v.subrange(0, i));
    assert(nodes_view(v.subrange(0, i)) =~= nodes_view(v).subrange(0, i));
}

/// Pushing a node extends the view by the node's view.
pub proof fn lemma_nodes_view_push(v: Seq<ASTNode>, n: ASTNode)
    ensures
        nodes_view(v.push(n)) == nodes_view(v).push(node_view(n)),
{
    assert(v.push(n).drop_last() =~= v);
}

/// A copy of a string option.
pub fn copy_opt_string(s: &Option<String>) -> (r: Option<String>)
    ensures
        match (s, r) {
            (Some(a), Some(b)) => a@ == b@,
            (None, None) => true,
            _ => false,
        },
{
    match s {
        Some(a) => Some(a.clone()),
        None => None,
    }
}

/// A copy of a parameter list.
pub fn copy_params(v: &Vec<Parameter>) -> (r: Vec<Parameter>)
    ensures
        params_view(r@) == params_view(v@),
{
    let mut out: Vec<Parameter> = Vec::new();
    let mut i: usize = 0;
    while i < v.len()
        invariant
            i <= v.len(),
            out@.len() == i,
            forall|k: int| 0 <= k < i ==> (#[trigger] out@[k]).name@ == v@[k].name@
                && out@[k].type_annotation@ == v@[k].type_annotation@,
        decreases v.len() - i,
    {
        out.push(v[i].duplicate());
        i = i + 1;
    }
    assert(params_view(out@) =~= params_view(v@));
    out
}

impl ASTNode {
    /// A copy of the node, with the same view.
    pub fn duplicate(&self) -> (r: ASTNode)
        ensures
            r@ == self@,
        decreases self,
    {
        match self {
            ASTNode::Program(v) => ASTNode::Program(duplicate_nodes(v)),
            ASTNode::Function { name, params, return_type, body, is_async } => ASTNode::Function {
                name: name.clone(),
                params: copy_params(params),
                return_type: copy_opt_string(return_type),
                body: duplicate_nodes(body),
                is_async: *is_async,
            },
            ASTNode::VariableDeclaration { name, type_annotation, value, is_mutable } => ASTNode::VariableDeclaration {
                name: name.clone(),
                type_annotation: copy_opt_string(type_annotation),
                value: Box::new((**value).duplicate()),
                is_mutable: *is_mutable,
            },
            ASTNode::Assignment { target, value } => ASTNode::Assignment {
                target: Box::new((**target).duplicate()),
                value: Box::new((**value).duplicate()),
            },
            ASTNode::If { condition, then_branch, else_branch } => ASTNode::If {
                condition: Box::new((**condition).duplicate()),
                then_branch: duplicate_nodes(then_branch),
                else_branch: match else_branch {
                    Some(e) => Some(duplicate_nodes(e)),
                    None => None,
                },
            },
            ASTNode::IfExpression { condition, then_branch, else_branch } => ASTNode::IfExpression {
                condition: Box::new((**condition).duplicate()),
                then_branch: Box::new((**then_branch).duplicate()),
                else_branch: match else_branch {
                    Some(e) => Some(Box::new((**e).duplicate())),
                    None => None,
                },
            },
            ASTNode::While { condition, body } => ASTNode::While {
                condition: Box::new((**condition).duplicate()),
                body: duplicate_nodes(body),
            },
            ASTNode::Return(v) => ASTNode::Return(
                match v {
                    Some(e) => Some(Box::new((**e).duplicate())),
                    None => None,
                },
            ),
            ASTNode::Break => ASTNode::Break,
            ASTNode::Continue => ASTNode::Continue,
            ASTNode::Block(v) => ASTNode::Block(duplicate_nodes(v)),
            ASTNode::BinaryOperation { left, operator, right } => ASTNode::BinaryOperation {
                left: Box::new((**left).duplicate()),
                operator: operator.clone(),
                right: Box::new((**right).duplicate()),
            },
            ASTNode::UnaryOperation { operator, operand } => ASTNode::UnaryOperation {
                operator: operator.clone(),
                operand: Box::new((**operand).duplicate()),
            },
            ASTNode::FunctionCall { name, arguments } => ASTNode::FunctionCall {
                name: name.clone(),
                arguments: duplicate_nodes(arguments),
            },
            ASTNode::ArrayLiteral(v) => ASTNode::ArrayLiteral(duplicate_nodes(v)),
            ASTNode::ArrayIndex { array, index } => ASTNode::ArrayIndex {
                array: Box::new((**array).duplicate()),
                index: Box::new((**index).duplicate()),
            },
            ASTNode::Identifier(s) => ASTNode::Identifier(s.clone()),
            ASTNode::IntegerLiteral(i) => ASTNode::IntegerLiteral(*i),
            ASTNode::FloatLiteral(s) => ASTNode::FloatLiteral(s.clone()),
            ASTNode::StringLiteral(s) => ASTNode::StringLiteral(s.clone()),
            ASTNode::BooleanLiteral(b) => ASTNode::BooleanLiteral(*b),
        }
    }
}

/// A copy of a sequence of nodes, with the same views.
pub fn duplicate_nodes(v: &Vec<ASTNode>) -> (r: Vec<ASTNode>)
    ensures
        nodes_view(r@) == nodes_view(v@),
    decreases v,
{
    let mut out: Vec<ASTNode> = Vec::new();
    let mut i: usize = 0;
    while i < v.len()
        invariant
            i <= v.len(),
            out@.len() == i,
            forall|k: int| 0 <= k < i ==> node_view(#[trigger] out@[k]) == node_view(v@[k]),
        decreases v.len() - i,
    {
        let c = v[i].duplicate();
        out.push(c);
        i = i + 1;
    }
    proof {
        lemma_nodes_view_eq(out@, v@);
    }
    out
}


/// The abstract value of a type: names as characters, component types as
/// sequences of abstract values.
pub enum TypeView {
    I32,
    I64,
    F32,
    F64,
    Bool,
    String,
    Void,
    Array(Box<TypeView>),
    Function { params: Seq<TypeView>, ret: Box<TypeView> },
    Struct { name: Seq<char>, fields: Seq<(Seq<char>, TypeView)> },
    Pointer(Box<TypeView>),
    Unknown,
}

/// The abstract value of a type.
pub open spec fn type_view(t: Type) -> TypeView
    decreases t,
{
    match t {
        Type::I32 => TypeView::I32,
        Type::I64 => TypeView::I64,
        Type::F32 => TypeView::F32,
        Type::F64 => TypeView::F64,
        Type::Bool => TypeView::Bool,
        Type::String => TypeView::String,
        Type::Void => TypeView::Void,
        Type::Array(e) => TypeView::Array(Box::new(type_view(*e))),
        Type::Function { params, ret } => TypeView::Function {
            params: types_view(params@),
            ret: Box::new(type_view(*ret)),
        },
        Type::Struct { name, fields } => TypeView::Struct { name: name@, fields: fields_view(fields@) },
        Type::Pointer(e) => TypeView::Pointer(Box::new(type_view(*e))),
        Type::Unknown => TypeView::Unknown,
    }
}

/// The abstract values of a sequence of types.
pub open spec fn types_view(v: Seq<Type>) -> Seq<TypeView>
    decreases v,
{
    if v.len() == 0 {
        Seq::empty()
    } else {
        types_view(v.drop_last()).push(type_view(v.last()))
    }
}

/// The abstract values of named fields.
pub open spec fn fields_view(v: Seq<(String, Type)>) -> Seq<(Seq<char>, TypeView)>
    decreases v,
{
    if v.len() == 0 {
        Seq::empty()
    } else {
        fields_view(v.drop_last()).push((v.last().0@, type_view(v.last().1)))
    }
}

impl View for Type {
    type V = TypeView;

    open spec fn view(&self) -> TypeView {
        type_view(*self)
    }
}

/// The views of a sequence of types, one per type.
pub proof fn lemma_types_view(v: Seq<Type>)
    ensures
        types_view(v).len() == v.len(),
        forall|i: int| 0 <= i < v.len() ==> #[trigger] types_view(v)[i] == type_view(v[i]),
    decreases v.len(),
{
    if v.len() > 0 {
        lemma_types_view(v.drop_last());
        assert forall|i: int| 0 <= i < v.len() implies #[trigger] types_view(v)[i] == type_view(v[i]) by {
            if i < v.len() - 1 {
                assert(v.drop_last()[i] == v[i]);
            }
        }
    }
}

/// The views of named fields, one per field.
pub proof fn lemma_fields_view(v: Seq<(String, Type)>)
    ensures
        fields_view(v).len() == v.len(),
        forall|i: int| 0 <= i < v.len() ==> #[trigger] fields_view(v)[i] == (v[i].0@, type_view(v[i].1)),
    decreases v.len(),
{
    if v.len() > 0 {
        lemma_fields_view(v.drop_last());
        assert forall|i: int| 0 <= i < v.len() implies #[trigger] fields_view(v)[i] == (v[i].0@, type_view(v[i].1)) by {
            if i < v.len() - 1 {
                assert(v.drop_last()[i] == v[i]);
            }
        }
    }
}

impl Type {
    /// A copy of the type, with the same view.
    pub fn duplicate(&self) -> (r: Type)
        ensures
            r@ == self@,
        decreases self,
    {
        match self {
            Type::I32 => Type::I32,
            Type::I64 => Type::I64,
            Type::F32 => Type::F32,
            Type::F64 => Type::F64,
            Type::Bool => Type::Bool,
            Type::String => Type::String,
            Type::Void => Type::Void,
            Type::Array(e) => Type::Array(Box::new((**e).duplicate())),
            Type::Function { params, ret } => Type::Function {
                params: duplicate_types(params),
                ret: Box::new((**ret).duplicate()),
            },
            Type::Struct { name, fields } => Type::Struct {
                name: name.clone(),
                fields: duplicate_fields(fields),
            },
            Type::Pointer(e) => Type::Pointer(Box::new((**e).duplicate())),
            Type::Unknown => Type::Unknown,
        }
    }
}

/// A copy of a sequence of types, with the same views.
pub fn duplicate_types(v: &Vec<Type>) -> (r: Vec<Type>)
    ensures
        types_view(r@) == types_view(v@),
    decreases v,
{
    let mut out: Vec<Type> = Vec::new();
    let mut i: usize = 0;
    while i < v.len()
        invariant
            i <= v.len(),
            out@.len() == i,
            forall|k: int| 0 <= k < i ==> type_view(#[trigger] out@[k]) == type_view(v@[k]),
        decreases v.len() - i,
    {
        let c = v[i].duplicate();
        out.push(c);
        i = i + 1;
    }
    proof {
        lemma_types_view(out@);
        lemma_types_view(v@);
        assert(types_view(out@) =~= types_view(v@));
    }
    out
}

/// A copy of named fields, with the same views.
pub fn duplicate_fields(v: &Vec<(String, Type)>) -> (r: Vec<(String, Type)>)
    ensures
        fields_view(r@) == fields_view(v@),
    decreases v,
{
    let mut out: Vec<(String, Type)> = Vec::new();
    let mut i: usize = 0;
    while i < v.len()
        invariant
            i <= v.len(),
            out@.len() == i,
            forall|k: int| 0 <= k < i ==> (#[trigger] out@[k]).0@ == v@[k].0@ && type_view(out@[k].1) == type_view(v@[k].1),
        decreases v.len() - i,
    {
        let c = (v[i].0.clone(), v[i].1.duplicate());
        out.push(c);
        i = i + 1;
    }
    proof {
        lemma_fields_view(out@);
        lemma_fields_view(v@);
        assert(fields_view(out@) =~= fields_view(v@));
    }
    out
}

} // verus!
