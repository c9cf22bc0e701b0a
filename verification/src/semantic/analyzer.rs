//! The type checker: types of expressions, checks of statements, and the scopes
//! of names.
use vstd::prelude::*;
use crate::ast::{ASTNode, BinaryOperator, Parameter};
use crate::error::{IoError, ErrorKind};
use crate::semantic::scope::{Scope, Frame, frame_lookup, frame_define};
use crate::semantic::types::{Type, TypeView, sem_view, sem_views, lemma_sem_views, type_matches, shown_name, types_match, type_of_name};
use crate::ast::{NodeView, spec_operator_of, node_view, nodes_view, lemma_nodes_view, params_view};
use crate::text::{push_str, to_owned_string};

verus! {

/// Whether two types are the same.
pub fn same_type(a: &Type, b: &Type) -> (r: bool)
    ensures
        r == (a@ == b@),
    decreases a,
{
    match (a, b) {
        (Type::Int, Type::Int) => true,
        (Type::Float, Type::Float) => true,
        (Type::Bool, Type::Bool) => true,
        (Type::String, Type::String) => true,
        (Type::Unit, Type::Unit) => true,
        (Type::Unknown, Type::Unknown) => true,
        (Type::Array(x), Type::Array(y)) => same_type(x, y),
        (Type::Function { params: p1, return_type: r1 }, Type::Function { params: p2, return_type: r2 }) => {
            proof {
                lemma_sem_views(p1@);
                lemma_sem_views(p2@);
            }
            if p1.len() != p2.len() {
                return false;
            }
            if !same_types(p1, p2) {
                return false;
            }
            same_type(r1, r2)
        },
        _ => false,
    }
}

/// Whether the types are the same, one by one.
fn same_types(p1: &Vec<Type>, p2: &Vec<Type>) -> (r: bool)
    requires
        p1@.len() == p2@.len(),
    ensures
        r == (sem_views(p1@) == sem_views(p2@)),
    decreases p1,
{
    proof {
        lemma_sem_views(p1@);
        lemma_sem_views(p2@);
    }
    let mut i: usize = 0;
    while i < p1.len()
        invariant
            p1@.len() == p2@.len(),
            i <= p1@.len(),
            sem_views(p1@).len() == p1@.len(),
            sem_views(p2@).len() == p2@.len(),
            forall|k: int| 0 <= k < p1@.len() ==> #[trigger] sem_views(p1@)[k] == sem_view(p1@[k]),
            forall|k: int| 0 <= k < p2@.len() ==> #[trigger] sem_views(p2@)[k] == sem_view(p2@[k]),
            forall|k: int| 0 <= k < i ==> sem_view(p1@[k]) == sem_view(p2@[k]),
        decreases p1.len() - i,
    {
        if !same_type(&p1[i], &p2[i]) {
            assert(sem_views(p1@)[i as int] != sem_views(p2@)[i as int]);
            return false;
        }
        i = i + 1;
    }
    assert(sem_views(p1@) =~= sem_views(p2@));
    true
}

/// The type of a binary operation on operands of the given types, or the
/// message of the type error.
pub open spec fn binary_type(op: BinaryOperator, l: TypeView, r: TypeView) -> Result<TypeView, Seq<char>> {
    match op {
        BinaryOperator::Add | BinaryOperator::Subtract | BinaryOperator::Multiply | BinaryOperator::Divide => match (l, r) {
            (TypeView::Int, TypeView::Int) => Ok(TypeView::Int),
            (TypeView::Float, TypeView::Float) => Ok(TypeView::Float),
            _ => Err("Invalid operand types for arithmetic operation: "@ + shown_name(l) + " and "@ + shown_name(r)),
        },
        BinaryOperator::Equal | BinaryOperator::NotEqual => if l == r {
            Ok(TypeView::Bool)
        } else {
            Err("Cannot compare values of different types: "@ + shown_name(l) + " and "@ + shown_name(r))
        },
        BinaryOperator::LessThan | BinaryOperator::LessThanEqual | BinaryOperator::GreaterThan
        | BinaryOperator::GreaterThanEqual => match (l, r) {
            (TypeView::Int, TypeView::Int) => Ok(TypeView::Bool),
            (TypeView::Float, TypeView::Float) => Ok(TypeView::Bool),
            _ => Err("Cannot compare values of types "@ + shown_name(l) + " and "@ + shown_name(r)),
        },
        BinaryOperator::And | BinaryOperator::Or => match (l, r) {
            (TypeView::Bool, TypeView::Bool) => Ok(TypeView::Bool),
            _ => Err("Logical operators require boolean operands"@),
        },
        BinaryOperator::BitwiseAnd | BinaryOperator::BitwiseOr | BinaryOperator::BitwiseXor => match (l, r) {
            (TypeView::Int, TypeView::Int) => Ok(TypeView::Int),
            _ => Err("Bitwise operators require integer operands"@),
        },
        BinaryOperator::LeftShift | BinaryOperator::RightShift => match (l, r) {
            (TypeView::Int, TypeView::Int) => Ok(TypeView::Int),
            _ => Err("Shift operators require integer operands"@),
        },
        BinaryOperator::Modulo => match (l, r) {
            (TypeView::Int, TypeView::Int) => Ok(TypeView::Int),
            (TypeView::Float, TypeView::Float) => Ok(TypeView::Float),
            _ => Err("Modulo operator requires numeric operands"@),
        },
        BinaryOperator::Power => match (l, r) {
            (TypeView::Float, TypeView::Float) => Ok(TypeView::Float),
            _ => Err("Power operator requires float operands"@),
        },
    }
}

/// A comparison operator.
pub open spec fn is_comparison(op: BinaryOperator) -> bool {
    ||| op is Equal
    ||| op is NotEqual
    ||| op is LessThan
    ||| op is LessThanEqual
    ||| op is GreaterThan
    ||| op is GreaterThanEqual
}

/// An arithmetic operator.
pub open spec fn is_arithmetic(op: BinaryOperator) -> bool {
    ||| op is Add
    ||| op is Subtract
    ||| op is Multiply
    ||| op is Divide
    ||| op is Modulo
}

/// What the type of a binary operation is, when it has one: a comparison is
/// boolean, and compares operands of one type (equality any type, ordering
/// numbers); arithmetic keeps the type of its two numeric operands; logic
/// takes and gives booleans; bitwise and shift operators take and give
/// integers; exponentiation takes and gives floats. Equal types are always
/// comparable for equality, two integers or two floats for order and
/// arithmetic, two booleans for logic, two integers for bitwise operators and
/// shifts, and two floats for exponentiation.
pub proof fn law_binary_types(op: BinaryOperator, l: TypeView, r: TypeView)
    ensures
        binary_type(op, l, r) matches Ok(t) ==> {
            &&& is_comparison(op) ==> t == TypeView::Bool && l == r
            &&& is_comparison(op) && !(op is Equal || op is NotEqual) ==> (l == TypeView::Int || l == TypeView::Float)
            &&& is_arithmetic(op) ==> t == l && l == r && (l == TypeView::Int || l == TypeView::Float)
            &&& (op is And || op is Or) ==> t == TypeView::Bool && l == TypeView::Bool && r == TypeView::Bool
            &&& (op is BitwiseAnd || op is BitwiseOr || op is BitwiseXor || op is LeftShift || op is RightShift) ==> t
                == TypeView::Int && l == TypeView::Int && r == TypeView::Int
            &&& op is Power ==> t == TypeView::Float && l == TypeView::Float && r == TypeView::Float
        },
        (op is Equal || op is NotEqual) && l == r ==> binary_type(op, l, r) == Ok::<TypeView, Seq<char>>(
            TypeView::Bool,
        ),
        is_comparison(op) && l == r && (l == TypeView::Int || l == TypeView::Float) ==> binary_type(op, l, r)
            == Ok::<TypeView, Seq<char>>(TypeView::Bool),
        is_arithmetic(op) && l == r && (l == TypeView::Int || l == TypeView::Float) ==> binary_type(op, l, r)
            == Ok::<TypeView, Seq<char>>(l),
        (op is And || op is Or) && l == TypeView::Bool && r == TypeView::Bool ==> binary_type(op, l, r)
            == Ok::<TypeView, Seq<char>>(TypeView::Bool),
        (op is BitwiseAnd || op is BitwiseOr || op is BitwiseXor || op is LeftShift || op is RightShift) && l
            == TypeView::Int && r == TypeView::Int ==> binary_type(op, l, r) == Ok::<TypeView, Seq<char>>(
            TypeView::Int,
        ),
        op is Power && l == TypeView::Float && r == TypeView::Float ==> binary_type(op, l, r) == Ok::<
            TypeView,
            Seq<char>,
        >(TypeView::Float),
{
}

/// What the type of a unary operation is, when it has one: negation keeps a
/// numeric type, logical not takes and gives a boolean, bitwise not takes and
/// gives an integer; each accepts exactly those operands.
pub proof fn law_unary_types(t: TypeView)
    ensures
        unary_type("-"@, t) is Ok <==> (t == TypeView::Int || t == TypeView::Float),
        unary_type("-"@, t) matches Ok(u) ==> u == t,
        unary_type("!"@, t) is Ok <==> t == TypeView::Bool,
        unary_type("!"@, t) matches Ok(u) ==> u == TypeView::Bool,
        unary_type("~"@, t) is Ok <==> t == TypeView::Int,
        unary_type("~"@, t) matches Ok(u) ==> u == TypeView::Int,
{
    reveal_strlit("-");
    reveal_strlit("!");
    reveal_strlit("~");
    assert("!"@[0] != "-"@[0]);
    assert("~"@[0] != "-"@[0]);
    assert("~"@[0] != "!"@[0]);
}

fn type_error_of_pair(prefix: &str, l: &Type, r: &Type) -> (e: IoError)
    ensures
        e.spec_kind() == ErrorKind::TypeError,
        e.spec_message() == prefix@ + shown_name(l@) + " and "@ + shown_name(r@),
{
    let mut m = to_owned_string(prefix);
    let ls = l.to_string();
    let rs = r.to_string();
    push_str(&mut m, ls.as_str());
    push_str(&mut m, " and ");
    push_str(&mut m, rs.as_str());
    IoError::type_error(m.as_str())
}

/// The type of a binary operation on operands of the given types.
pub fn check_binary_operation(op: &BinaryOperator, l: &Type, r: &Type) -> (res: Result<Type, IoError>)
    ensures
        match binary_type(*op, l@, r@) {
            Ok(t) => res matches Ok(x) && x@ == t,
            Err(m) => res matches Err(e) && e.spec_kind() == ErrorKind::TypeError && e.spec_message() == m,
        },
{
    match op {
        BinaryOperator::Add | BinaryOperator::Subtract | BinaryOperator::Multiply | BinaryOperator::Divide => match (l, r) {
            (Type::Int, Type::Int) => Ok(Type::Int),
            (Type::Float, Type::Float) => Ok(Type::Float),
            _ => Err(type_error_of_pair("Invalid operand types for arithmetic operation: ", l, r)),
        },
        BinaryOperator::Equal | BinaryOperator::NotEqual => if same_type(l, r) {
            Ok(Type::Bool)
        } else {
            Err(type_error_of_pair("Cannot compare values of different types: ", l, r))
        },
        BinaryOperator::LessThan | BinaryOperator::LessThanEqual | BinaryOperator::GreaterThan
        | BinaryOperator::GreaterThanEqual => match (l, r) {
            (Type::Int, Type::Int) => Ok(Type::Bool),
            (Type::Float, Type::Float) => Ok(Type::Bool),
            _ => Err(type_error_of_pair("Cannot compare values of types ", l, r)),
        },
        BinaryOperator::And | BinaryOperator::Or => match (l, r) {
            (Type::Bool, Type::Bool) => Ok(Type::Bool),
            _ => Err(IoError::type_error("Logical operators require boolean operands")),
        },
        BinaryOperator::BitwiseAnd | BinaryOperator::BitwiseOr | BinaryOperator::BitwiseXor => match (l, r) {
            (Type::Int, Type::Int) => Ok(Type::Int),
            _ => Err(IoError::type_error("Bitwise operators require integer operands")),
        },
        BinaryOperator::LeftShift | BinaryOperator::RightShift => match (l, r) {
            (Type::Int, Type::Int) => Ok(Type::Int),
            _ => Err(IoError::type_error("Shift operators require integer operands")),
        },
        BinaryOperator::Modulo => match (l, r) {
            (Type::Int, Type::Int) => Ok(Type::Int),
            (Type::Float, Type::Float) => Ok(Type::Float),
            _ => Err(IoError::type_error("Modulo operator requires numeric operands")),
        },
        BinaryOperator::Power => match (l, r) {
            (Type::Float, Type::Float) => Ok(Type::Float),
            _ => Err(IoError::type_error("Power operator requires float operands")),
        },
    }
}

/// The type of a unary operation on an operand of the given type, or the
/// message of the type error.
pub open spec fn unary_type(op: Seq<char>, t: TypeView) -> Result<TypeView, Seq<char>> {
    if op == "-"@ {
        match t {
            TypeView::Int => Ok(TypeView::Int),
            TypeView::Float => Ok(TypeView::Float),
            _ => Err("Unary minus requires numeric operand"@),
        }
    } else if op == "!"@ {
        match t {
            TypeView::Bool => Ok(TypeView::Bool),
            _ => Err("Logical not requires boolean operand"@),
        }
    } else if op == "~"@ {
        match t {
            TypeView::Int => Ok(TypeView::Int),
            _ => Err("Bitwise not requires integer operand"@),
        }
    } else {
        Err("Unknown unary operator"@)
    }
}

/// The type of a unary operation on an operand of the given type.
pub fn check_unary_operation(op: &str, t: &Type) -> (res: Result<Type, IoError>)
    ensures
        match unary_type(op@, t@) {
            Ok(x) => res matches Ok(y) && y@ == x,
            Err(m) => res matches Err(e) && e.spec_kind() == ErrorKind::TypeError && e.spec_message() == m,
        },
{
    if crate::text::str_eq(op, "-") {
        match t {
            Type::Int => Ok(Type::Int),
            Type::Float => Ok(Type::Float),
            _ => Err(IoError::type_error("Unary minus requires numeric operand")),
        }
    } else if crate::text::str_eq(op, "!") {
        match t {
            Type::Bool => Ok(Type::Bool),
            _ => Err(IoError::type_error("Logical not requires boolean operand")),
        }
    } else if crate::text::str_eq(op, "~") {
        match t {
            Type::Int => Ok(Type::Int),
            _ => Err(IoError::type_error("Bitwise not requires integer operand")),
        }
    } else {
        Err(IoError::type_error("Unknown unary operator"))
    }
}

/// Nested scopes after leaving the innermost: the outermost scope stays.
pub open spec fn frames_exit(fr: Seq<Frame>) -> Seq<Frame> {
    if fr.len() > 1 {
        fr.drop_last()
    } else {
        fr
    }
}

/// The type a name resolves to: the type its type name stands for, or unknown.
pub open spec fn named_type(tn: Seq<char>) -> TypeView {
    match type_of_name(tn) {
        Some(t) => t,
        None => TypeView::Unknown,
    }
}

/// The message for a type name that stands for no type.
pub open spec fn unknown_type(tn: Seq<char>) -> Seq<char> {
    "Unknown type: "@ + tn
}

/// What checking a node gives, from the scopes `fr` (innermost last), whether
/// a loop and a function enclose it, and that function's return type: the
/// scopes after it (a declaration defines its name in the innermost scope;
/// blocks and functions open a scope of their own and close it), and the
/// node's type or the message of the first type error. Conditions must be
/// boolean, operands must suit their operators, `break` and `continue` must be
/// in a loop and `return` in a function, declared and assigned types must
/// match, and only mutable names may be assigned.
pub open spec fn check_node(fr: Seq<Frame>, lp: bool, inf: bool, ret: Option<TypeView>, n: NodeView) -> (Seq<Frame>, Result<TypeView, Seq<char>>)
    decreases n, 0nat, 0nat,
{
    match n {
        NodeView::IntegerLiteral(_) => (fr, Ok(TypeView::Int)),
        NodeView::FloatLiteral(_) => (fr, Ok(TypeView::Float)),
        NodeView::StringLiteral(_) => (fr, Ok(TypeView::String)),
        NodeView::BooleanLiteral(_) => (fr, Ok(TypeView::Bool)),
        NodeView::Break => (fr, if lp { Ok(TypeView::Unit) } else { Err("Break statement outside loop"@) }),
        NodeView::Continue => (fr, if lp { Ok(TypeView::Unit) } else { Err("Continue statement outside loop"@) }),
        NodeView::Identifier(name) => (fr, match frame_lookup(fr, name) {
            Some(e) => Ok(named_type(e.0)),
            None => Err("Undefined variable: "@ + name),
        }),
        NodeView::VariableDeclaration { name, type_annotation, value, is_mutable } => {
            let (f1, rv) = check_node(fr, lp, inf, ret, *value);
            match rv {
                Err(m) => (f1, Err(m)),
                Ok(vt) => {
                    let mismatch: Option<Seq<char>> = match type_annotation {
                        Some(tn) => match type_of_name(tn) {
                            None => Some(unknown_type(tn)),
                            Some(d) => if !type_matches(d, vt) {
                                Some("Type mismatch: expected "@ + shown_name(d) + ", found "@ + shown_name(vt))
                            } else {
                                None
                            },
                        },
                        None => None,
                    };
                    match mismatch {
                        Some(m) => (f1, Err(m)),
                        None => match frame_define(f1, name, shown_name(vt), is_mutable) {
                            Ok(f2) => (f2, Ok(vt)),
                            Err(m) => (f1, Err(m)),
                        },
                    }
                },
            }
        },
        NodeView::Assignment { target, value } => {
            let (f1, rt) = check_node(fr, lp, inf, ret, *target);
            match rt {
                Err(m) => (f1, Err(m)),
                Ok(tt) => {
                    let (f2, rv) = check_node(f1, lp, inf, ret, *value);
                    match rv {
                        Err(m) => (f2, Err(m)),
                        Ok(vt) => if !type_matches(tt, vt) {
                            (f2, Err("Cannot assign "@ + shown_name(vt) + " to variable of type "@ + shown_name(tt)))
                        } else {
                            match *target {
                                NodeView::Identifier(name) => match frame_lookup(f2, name) {
                                    Some(e) => if !e.1 {
                                        (f2, Err("Cannot assign to immutable variable "@ + name))
                                    } else {
                                        (f2, Ok(tt))
                                    },
                                    None => (f2, Ok(tt)),
                                },
                                _ => (f2, Ok(tt)),
                            }
                        },
                    }
                },
            }
        },
        NodeView::BinaryOperation { left, operator, right } => match spec_operator_of(operator) {
            None => (fr, Err("Unsupported operator"@)),
            Some(op) => {
                let (f1, rl) = check_node(fr, lp, inf, ret, *left);
                match rl {
                    Err(m) => (f1, Err(m)),
                    Ok(l) => {
                        let (f2, rr) = check_node(f1, lp, inf, ret, *right);
                        match rr {
                            Err(m) => (f2, Err(m)),
                            Ok(r) => (f2, binary_type(op, l, r)),
                        }
                    },
                }
            },
        },
        NodeView::UnaryOperation { operator, operand } => {
            let (f1, rt) = check_node(fr, lp, inf, ret, *operand);
            match rt {
                Err(m) => (f1, Err(m)),
                Ok(t) => (f1, unary_type(operator, t)),
            }
        },
        NodeView::If { condition, then_branch, else_branch } => {
            let (f1, rc) = check_condition(fr, lp, inf, ret, *condition, "If condition must be a boolean expression"@);
            match rc {
                Err(m) => (f1, Err(m)),
                Ok(_) => {
                    let (f2, rt) = check_scoped(f1, lp, inf, ret, then_branch);
                    match rt {
                        Err(m) => (f2, Err(m)),
                        Ok(_) => match else_branch {
                            Some(e) => {
                                let (f3, re) = check_scoped(f2, lp, inf, ret, e);
                                match re {
                                    Err(m) => (f3, Err(m)),
                                    Ok(_) => (f3, Ok(TypeView::Unit)),
                                }
                            },
                            None => (f2, Ok(TypeView::Unit)),
                        },
                    }
                },
            }
        },
        NodeView::IfExpression { condition, then_branch, else_branch } => {
            let (f1, rc) = check_condition(fr, lp, inf, ret, *condition, "If condition must be a boolean expression"@);
            match rc {
                Err(m) => (f1, Err(m)),
                Ok(_) => {
                    let (f2, rt) = check_node(f1, lp, inf, ret, *then_branch);
                    match rt {
                        Err(m) => (f2, Err(m)),
                        Ok(tt) => match else_branch {
                            Some(e) => {
                                let (f3, re) = check_node(f2, lp, inf, ret, *e);
                                match re {
                                    Err(m) => (f3, Err(m)),
                                    Ok(et) => if !type_matches(tt, et) {
                                        (f3, Err("If branches must have same type"@))
                                    } else {
                                        (f3, Ok(tt))
                                    },
                                }
                            },
                            None => (f2, Ok(TypeView::Unit)),
                        },
                    }
                },
            }
        },
        NodeView::While { condition, body } => {
            let (f1, rc) = check_condition(fr, lp, inf, ret, *condition, "While condition must be a boolean expression"@);
            match rc {
                Err(m) => (f1, Err(m)),
                Ok(_) => {
                    let (f2, rb) = check_scoped(f1, true, inf, ret, body);
                    match rb {
                        Err(m) => (f2, Err(m)),
                        Ok(_) => (f2, Ok(TypeView::Unit)),
                    }
                },
            }
        },
        NodeView::Return(value) => if !inf {
            (fr, Err("Return statement outside function"@))
        } else {
            match (value, ret) {
                (Some(e), Some(t)) => {
                    let (f1, ra) = check_node(fr, lp, inf, ret, *e);
                    match ra {
                        Err(m) => (f1, Err(m)),
                        Ok(a) => if !type_matches(t, a) {
                            (f1, Err("Return type mismatch: expected "@ + shown_name(t) + ", found "@ + shown_name(a)))
                        } else {
                            (f1, Ok(TypeView::Unit))
                        },
                    }
                },
                (None, Some(_)) => (fr, Err("Expected return value"@)),
                (Some(_), None) => (fr, Err("Unexpected return value"@)),
                (None, None) => (fr, Ok(TypeView::Unit)),
            }
        },
        NodeView::Block(v) => {
            let (f1, r) = check_scoped(fr, lp, inf, ret, v);
            match r {
                Err(m) => (f1, Err(m)),
                Ok(_) => (f1, Ok(TypeView::Unit)),
            }
        },
        NodeView::Program(v) => {
            let (f1, r) = check_list(fr, lp, inf, ret, v, 0);
            match r {
                Err(m) => (f1, Err(m)),
                Ok(_) => (f1, Ok(TypeView::Unit)),
            }
        },
        NodeView::ArrayLiteral(v) => if v.len() == 0 {
            (fr, Ok(TypeView::Array(Box::new(TypeView::Unknown))))
        } else {
            let (f1, r0) = check_node(fr, lp, inf, ret, v[0]);
            match r0 {
                Err(m) => (f1, Err(m)),
                Ok(first) => {
                    let (f2, re) = check_elements(f1, lp, inf, ret, v, first, 1);
                    match re {
                        Err(m) => (f2, Err(m)),
                        Ok(_) => (f2, Ok(TypeView::Array(Box::new(first)))),
                    }
                },
            }
        },
        NodeView::ArrayIndex { array, index } => {
            let (f1, ra) = check_node(fr, lp, inf, ret, *array);
            match ra {
                Err(m) => (f1, Err(m)),
                Ok(a) => {
                    let (f2, ri) = check_node(f1, lp, inf, ret, *index);
                    match ri {
                        Err(m) => (f2, Err(m)),
                        Ok(ix) => (f2, match (a, ix) {
                            (TypeView::Array(e), TypeView::Int) => Ok(*e),
                            (TypeView::String, TypeView::Int) => Ok(TypeView::String),
                            _ => Err("Invalid array access"@),
                        }),
                    }
                },
            }
        },
        NodeView::FunctionCall { name: _, arguments } => {
            let (f1, r) = check_list(fr, lp, inf, ret, arguments, 0);
            match r {
                Err(m) => (f1, Err(m)),
                Ok(_) => (f1, Ok(TypeView::Unknown)),
            }
        },
        NodeView::Function { name: _, params, return_type, body, is_async: _ } => check_function(fr, lp, inf, ret, params, return_type, body),
    }
}

/// Checking a condition: it must be checked without error and be boolean.
pub open spec fn check_condition(fr: Seq<Frame>, lp: bool, inf: bool, ret: Option<TypeView>, c: NodeView, message: Seq<char>) -> (Seq<Frame>, Result<(), Seq<char>>)
    decreases c, 1nat, 0nat,
{
    let (f1, r) = check_node(fr, lp, inf, ret, c);
    match r {
        Err(m) => (f1, Err(m)),
        Ok(t) => (f1, if t == TypeView::Bool { Ok(()) } else { Err(message) }),
    }
}

/// Checking the nodes from the `i`-th on in turn, until the first error.
pub open spec fn check_list(fr: Seq<Frame>, lp: bool, inf: bool, ret: Option<TypeView>, v: Seq<NodeView>, i: nat) -> (Seq<Frame>, Result<(), Seq<char>>)
    decreases v, 1nat, v.len() - i,
{
    if i >= v.len() {
        (fr, Ok(()))
    } else {
        let (f1, r) = check_node(fr, lp, inf, ret, v[i as int]);
        match r {
            Err(m) => (f1, Err(m)),
            Ok(_) => check_list(f1, lp, inf, ret, v, i + 1),
        }
    }
}

/// Checking nodes in a scope of their own, which is closed after them.
pub open spec fn check_scoped(fr: Seq<Frame>, lp: bool, inf: bool, ret: Option<TypeView>, v: Seq<NodeView>) -> (Seq<Frame>, Result<(), Seq<char>>)
    decreases v, 2nat, 0nat,
{
    let (f1, r) = check_list(fr.push(Map::empty()), lp, inf, ret, v, 0);
    (frames_exit(f1), r)
}

/// Checking the elements of an array from the `i`-th on: each must have the
/// type of the first.
pub open spec fn check_elements(fr: Seq<Frame>, lp: bool, inf: bool, ret: Option<TypeView>, v: Seq<NodeView>, first: TypeView, i: nat) -> (Seq<Frame>, Result<(), Seq<char>>)
    decreases v, 1nat, v.len() - i,
{
    if i >= v.len() {
        (fr, Ok(()))
    } else {
        let (f1, r) = check_node(fr, lp, inf, ret, v[i as int]);
        match r {
            Err(m) => (f1, Err(m)),
            Ok(t) => if !type_matches(first, t) {
                (f1, Err("Array elements must have same type"@))
            } else {
                check_elements(f1, lp, inf, ret, v, first, i + 1)
            },
        }
    }
}

/// The first parameter, from the `i`-th on, whose type name stands for no type.
pub open spec fn bad_param_type(params: Seq<(Seq<char>, Seq<char>)>, i: nat) -> Option<Seq<char>>
    decreases params.len() - i,
{
    if i >= params.len() {
        None
    } else if type_of_name(params[i as int].1) is None {
        Some(params[i as int].1)
    } else {
        bad_param_type(params, i + 1)
    }
}

/// The types of the parameters.
pub open spec fn param_type_views(params: Seq<(Seq<char>, Seq<char>)>) -> Seq<TypeView> {
    params.map_values(|p: (Seq<char>, Seq<char>)| named_type(p.1))
}

/// Defining the parameters from the `i`-th on, in the innermost scope.
pub open spec fn define_params(fr: Seq<Frame>, params: Seq<(Seq<char>, Seq<char>)>, i: nat) -> Result<Seq<Frame>, (Seq<Frame>, Seq<char>)>
    decreases params.len() - i,
{
    if i >= params.len() {
        Ok(fr)
    } else {
        match frame_define(fr, params[i as int].0, shown_name(named_type(params[i as int].1)), false) {
            Err(m) => Err((fr, m)),
            Ok(f1) => define_params(f1, params, i + 1),
        }
    }
}

/// Checking a function: its return and parameter types must be known; its
/// parameters are defined, immutable, in a scope of its own, where its body is
/// checked inside a function of that return type. Its type is the function
/// type.
pub open spec fn check_function(
    fr: Seq<Frame>,
    lp: bool,
    inf: bool,
    ret: Option<TypeView>,
    params: Seq<(Seq<char>, Seq<char>)>,
    return_type: Option<Seq<char>>,
    body: Seq<NodeView>,
) -> (Seq<Frame>, Result<TypeView, Seq<char>>)
    decreases body, 3nat, 0nat,
{
    let rt: Result<TypeView, Seq<char>> = match return_type {
        Some(tn) => match type_of_name(tn) {
            Some(t) => Ok(t),
            None => Err(unknown_type(tn)),
        },
        None => Ok(TypeView::Unit),
    };
    match rt {
        Err(m) => (fr, Err(m)),
        Ok(r) => match bad_param_type(params, 0) {
            Some(tn) => (fr, Err(unknown_type(tn))),
            None => match define_params(fr.push(Map::empty()), params, 0) {
                Err((f1, m)) => (frames_exit(f1), Err(m)),
                Ok(f1) => {
                    let (f2, rb) = check_list(f1, lp, true, Some(r), body, 0);
                    (frames_exit(f2), match rb {
                        Err(m) => Err(m),
                        Ok(_) => Ok(TypeView::Function { params: param_type_views(params), return_type: Box::new(r) }),
                    })
                },
            },
        },
    }
}

/// The result of a check that gives a type matches the expected outcome: that
/// type, or a type error with that message.
pub open spec fn typed_outcome(r: Result<Type, IoError>, res: Result<TypeView, Seq<char>>) -> bool {
    match res {
        Ok(t) => r matches Ok(x) && x@ == t,
        Err(m) => r matches Err(e) && e.spec_kind() == ErrorKind::TypeError && e.spec_message() == m,
    }
}

/// The result of a check that gives nothing matches the expected outcome:
/// success, or a type error with that message.
pub open spec fn unit_outcome(r: Result<(), IoError>, res: Result<(), Seq<char>>) -> bool {
    match res {
        Ok(_) => r is Ok,
        Err(m) => r matches Err(e) && e.spec_kind() == ErrorKind::TypeError && e.spec_message() == m,
    }
}

/// The text of an optional string.
pub open spec fn opt_text(o: Option<String>) -> Option<Seq<char>> {
    match o {
        Some(t) => Some(t@),
        None => None,
    }
}

/// A type a declaration can name.
pub open spec fn is_basic_type(t: TypeView) -> bool {
    ||| t == TypeView::Int
    ||| t == TypeView::Float
    ||| t == TypeView::Bool
    ||| t == TypeView::String
    ||| t == TypeView::Unit
}

/// The name a basic type is shown by stands for that type again.
pub proof fn law_type_names_read_back(t: TypeView)
    requires
        is_basic_type(t),
    ensures
        type_of_name(shown_name(t)) == Some(t),
        named_type(shown_name(t)) == t,
{
    reveal_strlit("int");
    reveal_strlit("float");
    reveal_strlit("bool");
    reveal_strlit("string");
    reveal_strlit("unit");
    assert("float"@.len() != "int"@.len());
    assert("bool"@.len() != "int"@.len() && "bool"@.len() != "float"@.len());
    assert("string"@.len() != "int"@.len() && "string"@.len() != "float"@.len() && "string"@.len() != "bool"@.len());
    assert("unit"@.len() != "int"@.len() && "unit"@.len() != "float"@.len() && "unit"@[0] != "bool"@[0]
        && "unit"@.len() != "string"@.len());
}

/// Literals have their own types, and checking them changes no scope.
pub proof fn law_literals_have_their_types(fr: Seq<Frame>, lp: bool, inf: bool, ret: Option<TypeView>, i: i64, f: Seq<char>, s: Seq<char>, b: bool)
    ensures
        check_node(fr, lp, inf, ret, NodeView::IntegerLiteral(i)) == (fr, Ok::<TypeView, Seq<char>>(TypeView::Int)),
        check_node(fr, lp, inf, ret, NodeView::FloatLiteral(f)) == (fr, Ok::<TypeView, Seq<char>>(TypeView::Float)),
        check_node(fr, lp, inf, ret, NodeView::StringLiteral(s)) == (fr, Ok::<TypeView, Seq<char>>(TypeView::String)),
        check_node(fr, lp, inf, ret, NodeView::BooleanLiteral(b)) == (fr, Ok::<TypeView, Seq<char>>(TypeView::Bool)),
{
}

/// A variable declared with a value of a basic type reads back at that type:
/// after the declaration, the name checks as the value's type (in scopes that
/// checking the value leaves open).
pub proof fn law_declared_variable_reads_back(
    fr: Seq<Frame>,
    lp: bool,
    inf: bool,
    ret: Option<TypeView>,
    name: Seq<char>,
    value: NodeView,
    mutable: bool,
)
    ensures
        ({
            let (f, r) = check_node(
                fr,
                lp,
                inf,
                ret,
                NodeView::VariableDeclaration { name, type_annotation: None, value: Box::new(value), is_mutable: mutable },
            );
            (r matches Ok(t) && is_basic_type(t) && check_node(fr, lp, inf, ret, value).0.len() > 0) ==> check_node(f, lp, inf, ret, NodeView::Identifier(name))
                == (f, r)
        }),
{
    let (f1, rv) = check_node(fr, lp, inf, ret, value);
    let decl = NodeView::VariableDeclaration { name, type_annotation: None, value: Box::new(value), is_mutable: mutable };
    if let Ok(vt) = rv {
        if is_basic_type(vt) && !f1.last().dom().contains(name) {
            law_type_names_read_back(vt);
            let f2 = f1.update(f1.len() - 1, f1.last().insert(name, (shown_name(vt), mutable)));
            assert(frame_define(f1, name, shown_name(vt), mutable) == Ok::<Seq<Frame>, Seq<char>>(f2));
            assert(check_node(fr, lp, inf, ret, decl) == (f2, Ok::<TypeView, Seq<char>>(vt)));
            if f1.len() > 0 {
                assert(f2.len() == f1.len());
                assert(f2[f2.len() - 1] == f1.last().insert(name, (shown_name(vt), mutable)));
                assert(f2.last() == f1.last().insert(name, (shown_name(vt), mutable)));
                assert(frame_lookup(f2, name) == Some((shown_name(vt), mutable)));
            }
        }
    }
}

/// The type checker's state: the innermost scope, whether a loop or a function
/// encloses the code being checked, and the return type of that function.
pub struct SemanticAnalyzer {
    current_scope: Scope,
    in_loop: bool,
    in_function: bool,
    return_type: Option<Type>,
}

impl SemanticAnalyzer {
    /// Whether a loop encloses the code being checked.
    pub closed spec fn spec_in_loop(&self) -> bool {
        self.in_loop
    }

    /// Whether a function encloses the code being checked.
    pub closed spec fn spec_in_function(&self) -> bool {
        self.in_function
    }

    /// The scope of the names.
    pub closed spec fn spec_scope(&self) -> Scope {
        self.current_scope
    }

    /// The return type of the function being checked, if any.
    pub closed spec fn spec_return_type(&self) -> Option<TypeView> {
        match self.return_type {
            Some(t) => Some(t@),
            None => None,
        }
    }

    /// The nested scopes, each by the names it defines, the innermost last.
    pub open spec fn spec_frames(&self) -> Seq<Frame> {
        self.spec_scope().frames()
    }

    /// What checking the node gives from this state.
    pub open spec fn checked(&self, n: NodeView) -> (Seq<Frame>, Result<TypeView, Seq<char>>) {
        check_node(self.spec_frames(), self.spec_in_loop(), self.spec_in_function(), self.spec_return_type(), n)
    }

    /// The state after a call keeps the loop, the function and its return type.
    pub open spec fn same_context(&self, other: Self) -> bool {
        &&& self.spec_in_loop() == other.spec_in_loop()
        &&& self.spec_in_function() == other.spec_in_function()
        &&& self.spec_return_type() == other.spec_return_type()
    }

    /// The scopes are well formed.
    pub closed spec fn wf(&self) -> bool {
        self.current_scope.wf()
    }

    /// A checker at the top level, outside any loop or function, with one empty
    /// scope.
    pub fn new() -> (r: Self)
        ensures
            r.wf(),
            !r.spec_in_loop(),
            !r.spec_in_function(),
            r.spec_return_type() is None,
            r.spec_frames() == seq![Map::<Seq<char>, (Seq<char>, bool)>::empty()],
    {
        SemanticAnalyzer { current_scope: Scope::new(), in_loop: false, in_function: false, return_type: None }
    }

    /// Opens a scope nested in the current one.
    pub fn enter_scope(&mut self)
        requires
            old(self).wf(),
        ensures
            final(self).wf(),
            final(self).spec_scope().spec_parent() == Some(old(self).spec_scope()),
            final(self).same_context(*old(self)),
            final(self).spec_frames() == old(self).spec_frames().push(Map::empty()),
    {
        let mut outer = Scope::new();
        std::mem::swap(&mut outer, &mut self.current_scope);
        self.current_scope = Scope::with_parent(outer);
    }

    /// Closes the current scope, going back to the enclosing one; the outermost
    /// scope stays.
    pub fn exit_scope(&mut self)
        requires
            old(self).wf(),
        ensures
            final(self).wf(),
            old(self).spec_scope().spec_parent() matches Some(p) ==> final(self).spec_scope() == p,
            final(self).same_context(*old(self)),
            final(self).spec_frames() == frames_exit(old(self).spec_frames()),
    {
        let mut cur = Scope::new();
        std::mem::swap(&mut cur, &mut self.current_scope);
        let ghost before = cur;
        proof {
            before.lemma_frames();
        }
        match cur.take_parent() {
            Some(p) => {
                proof {
                    p.lemma_frames();
                    assert(before.frames().drop_last() =~= p.frames());
                }
                self.current_scope = p;
            },
            None => {
                proof {
                    cur.lemma_frames();
                    assert(cur.frames() =~= before.frames());
                }
                self.current_scope = cur;
            },
        }
    }

    /// Whether a value of type `actual` may stand where `expected` is wanted.
    pub fn types_match(&self, expected: &Type, actual: &Type) -> (r: bool)
        ensures
            r == type_matches(expected@, actual@),
    {
        types_match(expected, actual)
    }

    fn analyze_list(&mut self, nodes: &Vec<ASTNode>) -> (r: Result<(), IoError>)
        requires
            old(self).wf(),
        ensures
            final(self).wf(),
            final(self).same_context(*old(self)),
            final(self).spec_frames() == check_list(old(self).spec_frames(), old(self).spec_in_loop(),
                old(self).spec_in_function(), old(self).spec_return_type(), nodes_view(nodes@), 0).0,
            unit_outcome(r, check_list(old(self).spec_frames(), old(self).spec_in_loop(),
                old(self).spec_in_function(), old(self).spec_return_type(), nodes_view(nodes@), 0).1),
        decreases nodes, 0nat,
    {
        let ghost v = nodes_view(nodes@);
        let ghost lp = self.spec_in_loop();
        let ghost inf = self.spec_in_function();
        let ghost ret = self.spec_return_type();
        let ghost start = check_list(self.spec_frames(), lp, inf, ret, v, 0);
        proof {
            lemma_nodes_view(nodes@);
        }
        let mut i: usize = 0;
        while i < nodes.len()
            invariant
                self.wf(),
                i <= nodes@.len(),
                v == nodes_view(nodes@),
                v.len() == nodes@.len(),
                forall|k: int| 0 <= k < nodes@.len() ==> #[trigger] v[k] == node_view(nodes@[k]),
                self.spec_in_loop() == lp,
                self.spec_in_function() == inf,
                self.spec_return_type() == ret,
                lp == old(self).spec_in_loop(),
                inf == old(self).spec_in_function(),
                ret == old(self).spec_return_type(),
                start == check_list(old(self).spec_frames(), lp, inf, ret, v, 0),
                start == check_list(self.spec_frames(), lp, inf, ret, v, i as nat),
            decreases nodes.len() - i,
        {
            assert(v[i as int] == nodes[i as int]@);
            match self.analyze(&nodes[i]) {
                Ok(_) => {},
                Err(e) => return Err(e),
            }
            i = i + 1;
        }
        Ok(())
    }

    fn analyze_scoped(&mut self, nodes: &Vec<ASTNode>) -> (r: Result<(), IoError>)
        requires
            old(self).wf(),
        ensures
            final(self).wf(),
            final(self).same_context(*old(self)),
            final(self).spec_frames() == check_scoped(old(self).spec_frames(), old(self).spec_in_loop(),
                old(self).spec_in_function(), old(self).spec_return_type(), nodes_view(nodes@)).0,
            unit_outcome(r, check_scoped(old(self).spec_frames(), old(self).spec_in_loop(),
                old(self).spec_in_function(), old(self).spec_return_type(), nodes_view(nodes@)).1),
        decreases nodes, 1nat,
    {
        self.enter_scope();
        let r = self.analyze_list(nodes);
        self.exit_scope();
        r
    }

    fn expect_bool(&mut self, condition: &ASTNode, message: &str) -> (r: Result<(), IoError>)
        requires
            old(self).wf(),
        ensures
            final(self).wf(),
            final(self).same_context(*old(self)),
            final(self).spec_frames() == check_condition(old(self).spec_frames(), old(self).spec_in_loop(),
                old(self).spec_in_function(), old(self).spec_return_type(), condition@, message@).0,
            unit_outcome(r, check_condition(old(self).spec_frames(), old(self).spec_in_loop(),
                old(self).spec_in_function(), old(self).spec_return_type(), condition@, message@).1),
        decreases condition, 3nat,
    {
        match self.analyze(condition) {
            Ok(Type::Bool) => Ok(()),
            Ok(_) => Err(IoError::type_error(message)),
            Err(e) => Err(e),
        }
    }

    fn define_symbol(&mut self, name: &str, t: &Type, mutable: bool) -> (r: Result<(), IoError>)
        requires
            old(self).wf(),
        ensures
            final(self).wf(),
            final(self).same_context(*old(self)),
            match frame_define(old(self).spec_frames(), name@, shown_name(t@), mutable) {
                Ok(f) => r is Ok && final(self).spec_frames() == f,
                Err(m) => r matches Err(e) && e.spec_kind() == ErrorKind::TypeError && e.spec_message() == m
                    && final(self).spec_frames() == old(self).spec_frames(),
            },
    {
        let tn = t.to_string();
        match self.current_scope.define(name, tn.as_str(), mutable) {
            Ok(()) => Ok(()),
            Err(m) => Err(IoError::type_error(m.as_str())),
        }
    }

    /// The type of a node, checking it on the way: conditions must be boolean,
    /// operands must suit their operators, `break` and `continue` must be in a
    /// loop and `return` in a function, declared and assigned types must match,
    /// and names are defined in the innermost scope.
    #[verifier::rlimit(60)]
    #[verifier::spinoff_prover]
    pub fn analyze(&mut self, node: &ASTNode) -> (r: Result<Type, IoError>)
        requires
            old(self).wf(),
        ensures
            final(self).wf(),
            final(self).same_context(*old(self)),
            final(self).spec_frames() == old(self).checked(node@).0,
            typed_outcome(r, old(self).checked(node@).1),
        decreases node, 2nat,
    {
        match node {
            ASTNode::IntegerLiteral(_) => Ok(Type::Int),
            ASTNode::FloatLiteral(_) => Ok(Type::Float),
            ASTNode::StringLiteral(_) => Ok(Type::String),
            ASTNode::BooleanLiteral(_) => Ok(Type::Bool),
            ASTNode::Break => if self.in_loop {
                Ok(Type::Unit)
            } else {
                Err(IoError::type_error("Break statement outside loop"))
            },
            ASTNode::Continue => if self.in_loop {
                Ok(Type::Unit)
            } else {
                Err(IoError::type_error("Continue statement outside loop"))
            },
            ASTNode::Identifier(name) => {
                proof {
                    self.current_scope.lemma_resolve_frames(name@);
                }
                match self.current_scope.lookup(name.as_str()) {
                Some(sym) => match Type::from_str(sym.ty_name.as_str()) {
                    Ok(t) => Ok(t),
                    Err(_) => Ok(Type::Unknown),
                },
                None => {
                    let mut m = to_owned_string("Undefined variable: ");
                    push_str(&mut m, name.as_str());
                    Err(IoError::type_error(m.as_str()))
                },
                }
            },
            ASTNode::VariableDeclaration { name, type_annotation, value, is_mutable } => {
                let value_type = match self.analyze(value) {
                    Ok(t) => t,
                    Err(e) => return Err(e),
                };
                match type_annotation {
                    Some(tn) => {
                        let declared = match Type::from_str(tn.as_str()) {
                            Ok(t) => t,
                            Err(e) => return Err(e),
                        };
                        if !types_match(&declared, &value_type) {
                            let mut m = to_owned_string("Type mismatch: expected ");
                            let ds = declared.to_string();
                            let vs = value_type.to_string();
                            push_str(&mut m, ds.as_str());
                            push_str(&mut m, ", found ");
                            push_str(&mut m, vs.as_str());
                            return Err(IoError::type_error(m.as_str()));
                        }
                    },
                    None => {},
                }
                match self.define_symbol(name.as_str(), &value_type, *is_mutable) {
                    Ok(()) => Ok(value_type),
                    Err(e) => Err(e),
                }
            },
            ASTNode::Assignment { target, value } => {
                let target_type = match self.analyze(target) {
                    Ok(t) => t,
                    Err(e) => return Err(e),
                };
                let value_type = match self.analyze(value) {
                    Ok(t) => t,
                    Err(e) => return Err(e),
                };
                if !types_match(&target_type, &value_type) {
                    let mut m = to_owned_string("Cannot assign ");
                    let vs = value_type.to_string();
                    let ts = target_type.to_string();
                    push_str(&mut m, vs.as_str());
                    push_str(&mut m, " to variable of type ");
                    push_str(&mut m, ts.as_str());
                    return Err(IoError::type_error(m.as_str()));
                }
                match &**target {
                    ASTNode::Identifier(name) => {
                        proof {
                            self.current_scope.lemma_resolve_frames(name@);
                        }
                        match self.current_scope.lookup(name.as_str()) {
                        Some(sym) => if !sym.mutable {
                            let mut m = to_owned_string("Cannot assign to immutable variable ");
                            push_str(&mut m, name.as_str());
                            return Err(IoError::type_error(m.as_str()));
                        },
                        None => {},
                        }
                    },
                    _ => {},
                }
                Ok(target_type)
            },
            ASTNode::BinaryOperation { left, operator, right } => {
                let op = match BinaryOperator::from_symbol(operator.as_str()) {
                    Some(op) => op,
                    None => return Err(IoError::type_error("Unsupported operator")),
                };
                let l = match self.analyze(left) {
                    Ok(t) => t,
                    Err(e) => return Err(e),
                };
                let r = match self.analyze(right) {
                    Ok(t) => t,
                    Err(e) => return Err(e),
                };
                check_binary_operation(&op, &l, &r)
            },
            ASTNode::UnaryOperation { operator, operand } => {
                let t = match self.analyze(operand) {
                    Ok(t) => t,
                    Err(e) => return Err(e),
                };
                check_unary_operation(operator.as_str(), &t)
            },
            ASTNode::If { condition, then_branch, else_branch } => {
                match self.expect_bool(condition, "If condition must be a boolean expression") {
                    Ok(()) => {},
                    Err(e) => return Err(e),
                }
                match self.analyze_scoped(then_branch) {
                    Ok(()) => {},
                    Err(e) => return Err(e),
                }
                match else_branch {
                    Some(e) => match self.analyze_scoped(e) {
                        Ok(()) => {},
                        Err(err) => return Err(err),
                    },
                    None => {},
                }
                Ok(Type::Unit)
            },
            ASTNode::IfExpression { condition, then_branch, else_branch } => {
                match self.expect_bool(condition, "If condition must be a boolean expression") {
                    Ok(()) => {},
                    Err(e) => return Err(e),
                }
                let then_type = match self.analyze(then_branch) {
                    Ok(t) => t,
                    Err(e) => return Err(e),
                };
                match else_branch {
                    Some(e) => {
                        let else_type = match self.analyze(e) {
                            Ok(t) => t,
                            Err(err) => return Err(err),
                        };
                        if !types_match(&then_type, &else_type) {
                            return Err(IoError::type_error("If branches must have same type"));
                        }
                        Ok(then_type)
                    },
                    None => Ok(Type::Unit),
                }
            },
            ASTNode::While { condition, body } => {
                match self.expect_bool(condition, "While condition must be a boolean expression") {
                    Ok(()) => {},
                    Err(e) => return Err(e),
                }
                let was_in_loop = self.in_loop;
                self.in_loop = true;
                let r = self.analyze_scoped(body);
                self.in_loop = was_in_loop;
                match r {
                    Ok(()) => Ok(Type::Unit),
                    Err(e) => Err(e),
                }
            },
            ASTNode::Return(value) => {
                if !self.in_function {
                    return Err(IoError::type_error("Return statement outside function"));
                }
                let expected = match &self.return_type {
                    Some(t) => Some(t.duplicate()),
                    None => None,
                };
                match (value, expected) {
                    (Some(e), Some(t)) => {
                        let actual = match self.analyze(e) {
                            Ok(a) => a,
                            Err(err) => return Err(err),
                        };
                        if !types_match(&t, &actual) {
                            let mut m = to_owned_string("Return type mismatch: expected ");
                            let ts = t.to_string();
                            let as_ = actual.to_string();
                            push_str(&mut m, ts.as_str());
                            push_str(&mut m, ", found ");
                            push_str(&mut m, as_.as_str());
                            return Err(IoError::type_error(m.as_str()));
                        }
                        Ok(Type::Unit)
                    },
                    (None, Some(_)) => Err(IoError::type_error("Expected return value")),
                    (Some(_), None) => Err(IoError::type_error("Unexpected return value")),
                    (None, None) => Ok(Type::Unit),
                }
            },
            ASTNode::Block(nodes) => match self.analyze_scoped(nodes) {
                Ok(()) => Ok(Type::Unit),
                Err(e) => Err(e),
            },
            ASTNode::Program(nodes) => match self.analyze_list(nodes) {
                Ok(()) => Ok(Type::Unit),
                Err(e) => Err(e),
            },
            ASTNode::ArrayLiteral(elements) => {
                proof {
                    lemma_nodes_view(elements@);
                }
                if elements.len() == 0 {
                    let empty = Type::Array(Box::new(Type::Unknown));
                    assert(sem_view(Type::Unknown) == TypeView::Unknown);
                    assert(empty@ == TypeView::Array(Box::new(TypeView::Unknown)));
                    return Ok(empty);
                }
                let first = match self.analyze(&elements[0]) {
                    Ok(t) => t,
                    Err(e) => return Err(e),
                };
                match self.analyze_elements(elements, &first) {
                    Ok(()) => {},
                    Err(e) => return Err(e),
                }
                Ok(Type::Array(Box::new(first)))
            },
            ASTNode::ArrayIndex { array, index } => {
                let a = match self.analyze(array) {
                    Ok(t) => t,
                    Err(e) => return Err(e),
                };
                let ix = match self.analyze(index) {
                    Ok(t) => t,
                    Err(e) => return Err(e),
                };
                match (a, ix) {
                    (Type::Array(e), Type::Int) => Ok(*e),
                    (Type::String, Type::Int) => Ok(Type::String),
                    _ => Err(IoError::type_error("Invalid array access")),
                }
            },
            ASTNode::FunctionCall { name: _, arguments } => match self.analyze_list(arguments) {
                Ok(()) => Ok(Type::Unknown),
                Err(e) => Err(e),
            },
            ASTNode::Function { name: _, params, return_type, body, is_async: _ } => self.analyze_function(params, return_type, body),
        }
    }

    fn analyze_elements(&mut self, elements: &Vec<ASTNode>, first: &Type) -> (r: Result<(), IoError>)
        requires
            old(self).wf(),
        ensures
            final(self).wf(),
            final(self).same_context(*old(self)),
            final(self).spec_frames() == check_elements(old(self).spec_frames(), old(self).spec_in_loop(),
                old(self).spec_in_function(), old(self).spec_return_type(), nodes_view(elements@), first@, 1).0,
            unit_outcome(r, check_elements(old(self).spec_frames(), old(self).spec_in_loop(),
                old(self).spec_in_function(), old(self).spec_return_type(), nodes_view(elements@), first@, 1).1),
        decreases elements, 0nat,
    {
        let ghost v = nodes_view(elements@);
        let ghost lp = self.spec_in_loop();
        let ghost inf = self.spec_in_function();
        let ghost ret = self.spec_return_type();
        let ghost start = check_elements(self.spec_frames(), lp, inf, ret, v, first@, 1);
        proof {
            lemma_nodes_view(elements@);
        }
        let mut i: usize = 1;
        if elements.len() == 0 {
            return Ok(());
        }
        while i < elements.len()
            invariant
                self.wf(),
                1 <= i <= elements@.len(),
                v == nodes_view(elements@),
                v.len() == elements@.len(),
                forall|k: int| 0 <= k < elements@.len() ==> #[trigger] v[k] == node_view(elements@[k]),
                self.spec_in_loop() == lp,
                self.spec_in_function() == inf,
                self.spec_return_type() == ret,
                lp == old(self).spec_in_loop(),
                inf == old(self).spec_in_function(),
                ret == old(self).spec_return_type(),
                start == check_elements(old(self).spec_frames(), lp, inf, ret, v, first@, 1),
                start == check_elements(self.spec_frames(), lp, inf, ret, v, first@, i as nat),
            decreases elements.len() - i,
        {
            assert(v[i as int] == elements[i as int]@);
            let t = match self.analyze(&elements[i]) {
                Ok(t) => t,
                Err(e) => return Err(e),
            };
            if !types_match(first, &t) {
                return Err(IoError::type_error("Array elements must have same type"));
            }
            i = i + 1;
        }
        Ok(())
    }

    fn param_types(params: &Vec<Parameter>) -> (r: Result<Vec<Type>, IoError>)
        ensures
            match bad_param_type(params_view(params@), 0) {
                Some(tn) => r matches Err(e) && e.spec_kind() == ErrorKind::TypeError
                    && e.spec_message() == unknown_type(tn),
                None => r matches Ok(v) && sem_views(v@) == param_type_views(params_view(params@)),
            },
    {
        let ghost pv = params_view(params@);
        let mut out: Vec<Type> = Vec::new();
        let mut i: usize = 0;
        while i < params.len()
            invariant
                i <= params@.len(),
                pv == params_view(params@),
                pv.len() == params@.len(),
                out@.len() == i,
                bad_param_type(pv, 0) == bad_param_type(pv, i as nat),
                forall|k: int| 0 <= k < i ==> #[trigger] sem_view(out@[k]) == named_type(pv[k].1),
            decreases params.len() - i,
        {
            assert(pv[i as int] == (params@[i as int].name@, params@[i as int].type_annotation@));
            match Type::from_str(params[i].type_annotation.as_str()) {
                Ok(t) => out.push(t),
                Err(e) => return Err(e),
            }
            i = i + 1;
        }
        proof {
            lemma_sem_views(out@);
            assert(sem_views(out@) =~= param_type_views(pv));
        }
        Ok(out)
    }

    fn analyze_function(&mut self, params: &Vec<Parameter>, return_type: &Option<String>, body: &Vec<ASTNode>) -> (r: Result<Type, IoError>)
        requires
            old(self).wf(),
        ensures
            final(self).wf(),
            final(self).same_context(*old(self)),
            final(self).spec_frames() == check_function(old(self).spec_frames(), old(self).spec_in_loop(),
                old(self).spec_in_function(), old(self).spec_return_type(), params_view(params@),
                opt_text(*return_type), nodes_view(body@)).0,
            typed_outcome(r, check_function(old(self).spec_frames(), old(self).spec_in_loop(),
                old(self).spec_in_function(), old(self).spec_return_type(), params_view(params@),
                opt_text(*return_type), nodes_view(body@)).1),
        decreases body, 2nat,
    {
        let ghost pv = params_view(params@);
        let ret = match return_type {
            Some(rt) => match Type::from_str(rt.as_str()) {
                Ok(t) => t,
                Err(e) => return Err(e),
            },
            None => Type::Unit,
        };
        let types = match Self::param_types(params) {
            Ok(v) => v,
            Err(e) => return Err(e),
        };
        let ghost start = self.spec_frames().push(Map::empty());
        let was_in_function = self.in_function;
        self.in_function = true;
        self.enter_scope();
        let mut i: usize = 0;
        while i < params.len()
            invariant
                self.wf(),
                i <= params@.len(),
                pv == params_view(params@),
                pv.len() == params@.len(),
                self.spec_in_loop() == old(self).spec_in_loop(),
                self.spec_return_type() == old(self).spec_return_type(),
                was_in_function == old(self).spec_in_function(),
                self.spec_in_function(),
                bad_param_type(pv, i as nat) is None,
                bad_param_type(pv, 0) is None,
                match opt_text(*return_type) {
                    Some(tn) => type_of_name(tn) == Some(ret@),
                    None => ret@ == TypeView::Unit,
                },
                start == old(self).spec_frames().push(Map::empty()),
                define_params(start, pv, 0) == define_params(self.spec_frames(), pv, i as nat),
            decreases params.len() - i,
        {
            assert(pv[i as int] == (params@[i as int].name@, params@[i as int].type_annotation@));
            let pt = match Type::from_str(params[i].type_annotation.as_str()) {
                Ok(t) => t,
                Err(e) => {
                    self.exit_scope();
                    self.in_function = was_in_function;
                    return Err(e);
                },
            };
            assert(pt@ == named_type(pv[i as int].1));
            match self.define_symbol(params[i].name.as_str(), &pt, false) {
                Ok(()) => {},
                Err(e) => {
                    self.exit_scope();
                    self.in_function = was_in_function;
                    return Err(e);
                },
            }
            i = i + 1;
        }
        let mut saved = Some(ret.duplicate());
        std::mem::swap(&mut saved, &mut self.return_type);
        let r = self.analyze_list(body);
        self.exit_scope();
        self.in_function = was_in_function;
        self.return_type = saved;
        match r {
            Ok(()) => Ok(Type::Function { params: types, return_type: Box::new(ret) }),
            Err(e) => Err(e),
        }
    }
}

} // verus!
