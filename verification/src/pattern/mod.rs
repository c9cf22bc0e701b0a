//! Pattern matching of values against patterns: literals, variables that bind,
//! the wildcard, and constructor applications whose arguments are checked
//! against the constructor's field types.
use vstd::prelude::*;
use crate::ast::{ASTNode, NodeView, nodes_view, lemma_nodes_view};
use crate::error::{IoError, ErrorKind};
use crate::semantic::scope::Scope;
use crate::semantic::scope::redefinition_message;
use crate::text::{decimal, push_decimal, push_str, to_owned_string, str_eq};

verus! {

/// The types that values and constructor fields have.
#[derive(Debug)]
pub enum MatchType {
    Integer,
    Float,
    String,
    Boolean,
    Unknown,
    Array(Box<MatchType>),
    Function { params: Vec<MatchType>, return_type: Box<MatchType> },
    Constructor { name: String, fields: Vec<MatchType> },
    Enum { name: String, variants: Vec<Variant> },
}

/// A variant of an enumeration, with its field types.
#[derive(Debug)]
pub struct Variant {
    pub name: String,
    pub fields: Vec<MatchType>,
}

/// The abstract value of a type.
pub enum TypeV {
    Integer,
    Float,
    String,
    Boolean,
    Unknown,
    Array(Box<TypeV>),
    Function { params: Seq<TypeV>, return_type: Box<TypeV> },
    Constructor { name: Seq<char>, fields: Seq<TypeV> },
    Enum { name: Seq<char>, variants: Seq<(Seq<char>, Seq<TypeV>)> },
}

/// The abstract value of a type.
pub open spec fn type_v(t: MatchType) -> TypeV
    decreases t,
{
    match t {
        MatchType::Integer => TypeV::Integer,
        MatchType::Float => TypeV::Float,
        MatchType::String => TypeV::String,
        MatchType::Boolean => TypeV::Boolean,
        MatchType::Unknown => TypeV::Unknown,
        MatchType::Array(e) => TypeV::Array(Box::new(type_v(*e))),
        MatchType::Function { params, return_type } => TypeV::Function {
            params: types_v(params@),
            return_type: Box::new(type_v(*return_type)),
        },
        MatchType::Constructor { name, fields } => TypeV::Constructor { name: name@, fields: types_v(fields@) },
        MatchType::Enum { name, variants } => TypeV::Enum { name: name@, variants: variants_v(variants@) },
    }
}

/// The abstract values of a sequence of types.
pub open spec fn types_v(v: Seq<MatchType>) -> Seq<TypeV>
    decreases v,
{
    if v.len() == 0 {
        Seq::empty()
    } else {
        types_v(v.drop_last()).push(type_v(v.last()))
    }
}

/// The abstract values of variants: name and field types.
pub open spec fn variants_v(v: Seq<Variant>) -> Seq<(Seq<char>, Seq<TypeV>)>
    decreases v,
{
    if v.len() == 0 {
        Seq::empty()
    } else {
        variants_v(v.drop_last()).push((v.last().name@, types_v(v.last().fields@)))
    }
}

impl View for MatchType {
    type V = TypeV;

    open spec fn view(&self) -> TypeV {
        type_v(*self)
    }
}

proof fn lemma_types_v(v: Seq<MatchType>)
    ensures
        types_v(v).len() == v.len(),
        forall|i: int| 0 <= i < v.len() ==> #[trigger] types_v(v)[i] == type_v(v[i]),
    decreases v.len(),
{
    if v.len() > 0 {
        lemma_types_v(v.drop_last());
        assert forall|i: int| 0 <= i < v.len() implies #[trigger] types_v(v)[i] == type_v(v[i]) by {
            if i < v.len() - 1 {
                assert(v.drop_last()[i] == v[i]);
            }
        }
    }
}

proof fn lemma_variants_v(v: Seq<Variant>)
    ensures
        variants_v(v).len() == v.len(),
        forall|i: int| 0 <= i < v.len() ==> #[trigger] variants_v(v)[i] == (v[i].name@, types_v(v[i].fields@)),
    decreases v.len(),
{
    if v.len() > 0 {
        lemma_variants_v(v.drop_last());
        assert forall|i: int| 0 <= i < v.len() implies #[trigger] variants_v(v)[i] == (v[i].name@, types_v(v[i].fields@)) by {
            if i < v.len() - 1 {
                assert(v.drop_last()[i] == v[i]);
            }
        }
    }
}

/// The name a type is written by: its kind, or for a constructor or an
/// enumeration its own name; arrays and functions show their parts.
pub open spec fn type_text(t: TypeV) -> Seq<char>
    decreases t,
{
    match t {
        TypeV::Integer => "Integer"@,
        TypeV::Float => "Float"@,
        TypeV::String => "String"@,
        TypeV::Boolean => "Boolean"@,
        TypeV::Unknown => "Unknown"@,
        TypeV::Array(e) => "Array<"@ + type_text(*e) + ">"@,
        TypeV::Function { params, return_type } => "fn("@ + types_text(params) + ") -> "@ + type_text(*return_type),
        TypeV::Constructor { name, .. } => name,
        TypeV::Enum { name, .. } => name,
    }
}

/// The names of types, separated by ", ".
pub open spec fn types_text(v: Seq<TypeV>) -> Seq<char>
    decreases v,
{
    if v.len() == 0 {
        Seq::empty()
    } else if v.len() == 1 {
        type_text(v[0])
    } else {
        types_text(v.drop_last()) + ", "@ + type_text(v.last())
    }
}

/// Whether a value of type `b` may stand where `a` is expected: the same base
/// type; arrays, functions and constructors alike in their parts; and an
/// unknown type on either side.
pub open spec fn compatible(a: TypeV, b: TypeV) -> bool
    decreases a,
{
    match (a, b) {
        (TypeV::Integer, TypeV::Integer) => true,
        (TypeV::Float, TypeV::Float) => true,
        (TypeV::String, TypeV::String) => true,
        (TypeV::Boolean, TypeV::Boolean) => true,
        (TypeV::Array(x), TypeV::Array(y)) => compatible(*x, *y),
        (TypeV::Function { params: p1, return_type: r1 }, TypeV::Function { params: p2, return_type: r2 }) => {
            p1.len() == p2.len() && all_compatible(p1, p2) && compatible(*r1, *r2)
        },
        (TypeV::Constructor { name: n1, fields: f1 }, TypeV::Constructor { name: n2, fields: f2 }) => {
            n1 == n2 && f1.len() == f2.len() && all_compatible(f1, f2)
        },
        (_, TypeV::Unknown) => true,
        (TypeV::Unknown, _) => true,
        _ => false,
    }
}

/// Each type of `a` admits the type at the same place in `b`, up to the
/// shorter.
pub open spec fn all_compatible(a: Seq<TypeV>, b: Seq<TypeV>) -> bool
    decreases a,
{
    if a.len() == 0 || b.len() == 0 {
        true
    } else {
        compatible(a[0], b[0]) && all_compatible(a.drop_first(), b.drop_first())
    }
}

proof fn lemma_all_compatible(a: Seq<TypeV>, b: Seq<TypeV>)
    ensures
        all_compatible(a, b) <==> forall|i: int|
            0 <= i < a.len() && i < b.len() ==> #[trigger] compatible(a[i], b[i]),
    decreases a.len(),
{
    if a.len() > 0 && b.len() > 0 {
        lemma_all_compatible(a.drop_first(), b.drop_first());
        if all_compatible(a, b) {
            assert forall|i: int| 0 <= i < a.len() && i < b.len() implies #[trigger] compatible(a[i], b[i]) by {
                if i > 0 {
                    assert(a.drop_first()[i - 1] == a[i]);
                    assert(b.drop_first()[i - 1] == b[i]);
                }
            }
        }
        if forall|i: int| 0 <= i < a.len() && i < b.len() ==> #[trigger] compatible(a[i], b[i]) {
            assert(compatible(a[0], b[0]));
            assert forall|i: int|
                0 <= i < a.drop_first().len() && i < b.drop_first().len() implies #[trigger] compatible(
                a.drop_first()[i],
                b.drop_first()[i],
            ) by {
                assert(compatible(a[i + 1], b[i + 1]));
            }
        }
    }
}

/// A copy of a type.
pub fn copy_type(t: &MatchType) -> (r: MatchType)
    ensures
        r@ == t@,
    decreases t,
{
    match t {
        MatchType::Integer => MatchType::Integer,
        MatchType::Float => MatchType::Float,
        MatchType::String => MatchType::String,
        MatchType::Boolean => MatchType::Boolean,
        MatchType::Unknown => MatchType::Unknown,
        MatchType::Array(e) => MatchType::Array(Box::new(copy_type(e))),
        MatchType::Function { params, return_type } => MatchType::Function {
            params: copy_types(params),
            return_type: Box::new(copy_type(return_type)),
        },
        MatchType::Constructor { name, fields } => MatchType::Constructor {
            name: name.clone(),
            fields: copy_types(fields),
        },
        MatchType::Enum { name, variants } => MatchType::Enum { name: name.clone(), variants: copy_variants(variants) },
    }
}

/// A copy of a list of types.
pub fn copy_types(v: &Vec<MatchType>) -> (r: Vec<MatchType>)
    ensures
        types_v(r@) == types_v(v@),
    decreases v,
{
    let mut out: Vec<MatchType> = Vec::new();
    let mut i: usize = 0;
    proof {
        lemma_types_v(v@);
    }
    while i < v.len()
        invariant
            i <= v@.len(),
            types_v(out@) == types_v(v@.subrange(0, i as int)),
        decreases v.len() - i,
    {
        let c = copy_type(&v[i]);
        proof {
            assert(v@.subrange(0, i + 1).drop_last() =~= v@.subrange(0, i as int));
            assert(out@.push(c).drop_last() =~= out@);
        }
        out.push(c);
        i = i + 1;
    }
    proof {
        assert(v@.subrange(0, v@.len() as int) =~= v@);
    }
    out
}

/// A copy of a list of variants.
pub fn copy_variants(v: &Vec<Variant>) -> (r: Vec<Variant>)
    ensures
        variants_v(r@) == variants_v(v@),
    decreases v,
{
    let mut out: Vec<Variant> = Vec::new();
    let mut i: usize = 0;
    while i < v.len()
        invariant
            i <= v@.len(),
            variants_v(out@) == variants_v(v@.subrange(0, i as int)),
        decreases v.len() - i,
    {
        let c = Variant { name: v[i].name.clone(), fields: copy_types(&v[i].fields) };
        proof {
            assert(v@.subrange(0, i + 1).drop_last() =~= v@.subrange(0, i as int));
            assert(out@.push(c).drop_last() =~= out@);
        }
        out.push(c);
        i = i + 1;
    }
    proof {
        assert(v@.subrange(0, v@.len() as int) =~= v@);
    }
    out
}

/// Appends the name of a type.
fn push_type_text(s: &mut String, t: &MatchType)
    ensures
        final(s)@ == old(s)@ + type_text(t@),
    decreases t,
{
    match t {
        MatchType::Integer => push_str(s, "Integer"),
        MatchType::Float => push_str(s, "Float"),
        MatchType::String => push_str(s, "String"),
        MatchType::Boolean => push_str(s, "Boolean"),
        MatchType::Unknown => push_str(s, "Unknown"),
        MatchType::Array(e) => {
            push_str(s, "Array<");
            push_type_text(s, e);
            push_str(s, ">");
            assert(s@ =~= old(s)@ + type_text(t@));
        },
        MatchType::Function { params, return_type } => {
            push_str(s, "fn(");
            push_types_text(s, params);
            push_str(s, ") -> ");
            push_type_text(s, return_type);
            assert(s@ =~= old(s)@ + type_text(t@));
        },
        MatchType::Constructor { name, .. } => push_str(s, name.as_str()),
        MatchType::Enum { name, .. } => push_str(s, name.as_str()),
    }
}

/// Appends the names of types, separated by ", ".
fn push_types_text(s: &mut String, v: &Vec<MatchType>)
    ensures
        final(s)@ == old(s)@ + types_text(types_v(v@)),
    decreases v,
{
    let ghost start = s@;
    proof {
        lemma_types_v(v@);
    }
    let mut i: usize = 0;
    proof {
        assert(types_v(v@).subrange(0, 0) =~= Seq::<TypeV>::empty());
        assert(s@ =~= start + types_text(types_v(v@).subrange(0, 0)));
    }
    while i < v.len()
        invariant
            i <= v@.len(),
            types_v(v@).len() == v@.len(),
            forall|k: int| 0 <= k < v@.len() ==> #[trigger] types_v(v@)[k] == type_v(v@[k]),
            s@ == start + types_text(types_v(v@).subrange(0, i as int)),
        decreases v.len() - i,
    {
        let ghost pre = types_v(v@).subrange(0, i as int);
        let ghost next = types_v(v@).subrange(0, i + 1);
        proof {
            assert(next.drop_last() =~= pre);
            assert(next.last() == v@[i as int]@);
        }
        if i > 0 {
            push_str(s, ", ");
        }
        push_type_text(s, &v[i]);
        proof {
            if i == 0 {
                assert(pre.len() == 0);
                assert(next[0] == v@[0]@);
            }
            assert(s@ =~= start + types_text(next));
        }
        i = i + 1;
    }
    proof {
        assert(types_v(v@).subrange(0, v@.len() as int) =~= types_v(v@));
    }
}

/// The name of a type.
pub fn type_name_text(t: &MatchType) -> (r: String)
    ensures
        r@ == type_text(t@),
{
    let mut s = String::new();
    push_type_text(&mut s, t);
    s
}

/// Whether a value of type `actual` may stand where `expected` is expected.
pub fn types_compatible(expected: &MatchType, actual: &MatchType) -> (r: bool)
    ensures
        r == compatible(expected@, actual@),
    decreases expected,
{
    match (expected, actual) {
        (MatchType::Integer, MatchType::Integer) => true,
        (MatchType::Float, MatchType::Float) => true,
        (MatchType::String, MatchType::String) => true,
        (MatchType::Boolean, MatchType::Boolean) => true,
        (MatchType::Array(x), MatchType::Array(y)) => types_compatible(x, y),
        (
            MatchType::Function { params: p1, return_type: r1 },
            MatchType::Function { params: p2, return_type: r2 },
        ) => {
            proof {
                lemma_types_v(p1@);
                lemma_types_v(p2@);
            }
            p1.len() == p2.len() && all_types_compatible(p1, p2) && types_compatible(r1, r2)
        },
        (MatchType::Constructor { name: n1, fields: f1 }, MatchType::Constructor { name: n2, fields: f2 }) => {
            proof {
                lemma_types_v(f1@);
                lemma_types_v(f2@);
            }
            str_eq(n1.as_str(), n2.as_str()) && f1.len() == f2.len() && all_types_compatible(f1, f2)
        },
        (_, MatchType::Unknown) => true,
        (MatchType::Unknown, _) => true,
        _ => false,
    }
}

/// Whether each type of `a` admits the one at the same place in `b`, up to
/// the shorter list.
fn all_types_compatible(a: &Vec<MatchType>, b: &Vec<MatchType>) -> (r: bool)
    ensures
        r == all_compatible(types_v(a@), types_v(b@)),
    decreases a,
{
    proof {
        lemma_types_v(a@);
        lemma_types_v(b@);
        lemma_all_compatible(types_v(a@), types_v(b@));
    }
    let mut i: usize = 0;
    while i < a.len() && i < b.len()
        invariant
            i <= a@.len(),
            types_v(a@).len() == a@.len(),
            types_v(b@).len() == b@.len(),
            forall|k: int| 0 <= k < a@.len() ==> #[trigger] types_v(a@)[k] == type_v(a@[k]),
            forall|k: int| 0 <= k < b@.len() ==> #[trigger] types_v(b@)[k] == type_v(b@[k]),
            forall|k: int| 0 <= k < i && k < b@.len() ==> #[trigger] compatible(types_v(a@)[k], types_v(b@)[k]),
        decreases a.len() - i,
    {
        if !types_compatible(&a[i], &b[i]) {
            proof {
                lemma_all_compatible(types_v(a@), types_v(b@));
                assert(!compatible(types_v(a@)[i as int], types_v(b@)[i as int]));
            }
            return false;
        }
        i = i + 1;
    }
    true
}

/// A pattern: a literal to equal, a variable to bind, the wildcard, or a
/// constructor applied to patterns for its arguments.
#[derive(Debug)]
pub enum Pattern {
    Literal(ASTNode),
    Variable(String),
    Wildcard,
    Constructor { name: String, fields: Vec<Pattern> },
}

/// The abstract value of a pattern.
pub enum PatternV {
    Literal(NodeView),
    Variable(Seq<char>),
    Wildcard,
    Constructor { name: Seq<char>, fields: Seq<PatternV> },
}

/// The abstract value of a pattern.
pub open spec fn pattern_v(p: Pattern) -> PatternV
    decreases p,
{
    match p {
        Pattern::Literal(n) => PatternV::Literal(n@),
        Pattern::Variable(x) => PatternV::Variable(x@),
        Pattern::Wildcard => PatternV::Wildcard,
        Pattern::Constructor { name, fields } => PatternV::Constructor { name: name@, fields: patterns_v(fields@) },
    }
}

/// The abstract values of patterns.
pub open spec fn patterns_v(v: Seq<Pattern>) -> Seq<PatternV>
    decreases v,
{
    if v.len() == 0 {
        Seq::empty()
    } else {
        patterns_v(v.drop_last()).push(pattern_v(v.last()))
    }
}

impl View for Pattern {
    type V = PatternV;

    open spec fn view(&self) -> PatternV {
        pattern_v(*self)
    }
}

proof fn lemma_patterns_v(v: Seq<Pattern>)
    ensures
        patterns_v(v).len() == v.len(),
        forall|i: int| 0 <= i < v.len() ==> #[trigger] patterns_v(v)[i] == pattern_v(v[i]),
    decreases v.len(),
{
    if v.len() > 0 {
        lemma_patterns_v(v.drop_last());
        assert forall|i: int| 0 <= i < v.len() implies #[trigger] patterns_v(v)[i] == pattern_v(v[i]) by {
            if i < v.len() - 1 {
                assert(v.drop_last()[i] == v[i]);
            }
        }
    }
}

/// The type declared last for a name.
pub open spec fn lookup(env: Seq<(Seq<char>, TypeV)>, name: Seq<char>) -> Option<TypeV>
    decreases env.len(),
{
    if env.len() == 0 {
        None
    } else if env.last().0 == name {
        Some(env.last().1)
    } else {
        lookup(env.drop_last(), name)
    }
}

/// The field types of all variants, one after the other.
pub open spec fn flatten_fields(vs: Seq<(Seq<char>, Seq<TypeV>)>) -> Seq<TypeV>
    decreases vs.len(),
{
    if vs.len() == 0 {
        Seq::empty()
    } else {
        flatten_fields(vs.drop_last()) + vs.last().1
    }
}

/// The field types of a constructor type; of an enumeration, those of its
/// variants in turn; any other type is no constructor.
pub open spec fn field_types(t: TypeV) -> Result<Seq<TypeV>, Seq<char>> {
    match t {
        TypeV::Constructor { fields, .. } => Ok(fields),
        TypeV::Enum { variants, .. } => Ok(flatten_fields(variants)),
        _ => Err("Expected constructor type, found "@ + type_text(t)),
    }
}

/// The name of the kind of a node whose type cannot be inferred.
pub open spec fn node_kind(n: NodeView) -> Seq<char> {
    match n {
        NodeView::Program(_) => "Program"@,
        NodeView::Function { .. } => "Function"@,
        NodeView::VariableDeclaration { .. } => "VariableDeclaration"@,
        NodeView::Assignment { .. } => "Assignment"@,
        NodeView::If { .. } => "If"@,
        NodeView::IfExpression { .. } => "IfExpression"@,
        NodeView::While { .. } => "While"@,
        NodeView::Return(_) => "Return"@,
        NodeView::Break => "Break"@,
        NodeView::Continue => "Continue"@,
        NodeView::Block(_) => "Block"@,
        NodeView::BinaryOperation { .. } => "BinaryOperation"@,
        NodeView::UnaryOperation { .. } => "UnaryOperation"@,
        NodeView::ArrayIndex { .. } => "ArrayIndex"@,
        NodeView::FunctionCall { .. } => "FunctionCall"@,
        NodeView::ArrayLiteral(_) => "ArrayLiteral"@,
        NodeView::Identifier(_) => "Identifier"@,
        NodeView::IntegerLiteral(_) => "IntegerLiteral"@,
        NodeView::FloatLiteral(_) => "FloatLiteral"@,
        NodeView::StringLiteral(_) => "StringLiteral"@,
        NodeView::BooleanLiteral(_) => "BooleanLiteral"@,
    }
}

/// The type of a node: literals by their kind; an array by its first element,
/// all others admitted by it; a name by its declared type; a call by the
/// return type of the function named.
pub open spec fn infer(env: Seq<(Seq<char>, TypeV)>, n: NodeView) -> Result<TypeV, (ErrorKind, Seq<char>)>
    decreases n, 0nat,
{
    match n {
        NodeView::IntegerLiteral(_) => Ok(TypeV::Integer),
        NodeView::FloatLiteral(_) => Ok(TypeV::Float),
        NodeView::StringLiteral(_) => Ok(TypeV::String),
        NodeView::BooleanLiteral(_) => Ok(TypeV::Boolean),
        NodeView::ArrayLiteral(es) => if es.len() == 0 {
            Ok(TypeV::Array(Box::new(TypeV::Unknown)))
        } else {
            infer_elements(env, es)
        },
        NodeView::Identifier(name) => match lookup(env, name) {
            Some(t) => Ok(t),
            None => Err((ErrorKind::RuntimeError, "Cannot infer type of undefined variable: "@ + name)),
        },
        NodeView::FunctionCall { name, .. } => match lookup(env, name) {
            None => Err((ErrorKind::RuntimeError, "Unknown function: "@ + name)),
            Some(TypeV::Function { return_type, .. }) => Ok(*return_type),
            Some(_) => Err((ErrorKind::TypeError, "Expected function type"@)),
        },
        _ => Err((ErrorKind::RuntimeError, "Cannot infer type of "@ + node_kind(n))),
    }
}

/// The type of a non-empty array literal: an array of its first element's
/// type, when that type admits every other element's.
pub open spec fn infer_elements(env: Seq<(Seq<char>, TypeV)>, es: Seq<NodeView>) -> Result<
    TypeV,
    (ErrorKind, Seq<char>),
>
    decreases es, es.len() + 1,
{
    if es.len() == 0 {
        Ok(TypeV::Array(Box::new(TypeV::Unknown)))
    } else {
        match infer(env, es[0]) {
            Err(e) => Err(e),
            Ok(t) => match check_elements(env, es, t, 1) {
                Err(e) => Err(e),
                Ok(()) => Ok(TypeV::Array(Box::new(t))),
            },
        }
    }
}

/// The elements from the `i`-th on all have types that `t` admits.
pub open spec fn check_elements(env: Seq<(Seq<char>, TypeV)>, es: Seq<NodeView>, t: TypeV, i: nat) -> Result<
    (),
    (ErrorKind, Seq<char>),
>
    decreases es, es.len() - i,
{
    if i >= es.len() {
        Ok(())
    } else {
        match infer(env, es[i as int]) {
            Err(e) => Err(e),
            Ok(u) => if !compatible(t, u) {
                Err((ErrorKind::TypeError, "Inconsistent array element types"@))
            } else {
                check_elements(env, es, t, i + 1)
            },
        }
    }
}

/// Whether a literal pattern equals the value: integers, strings and booleans
/// that are equal; nothing else.
pub open spec fn literal_matches(lit: NodeView, v: NodeView) -> bool {
    match (lit, v) {
        (NodeView::IntegerLiteral(a), NodeView::IntegerLiteral(b)) => a == b,
        (NodeView::StringLiteral(a), NodeView::StringLiteral(b)) => a == b,
        (NodeView::BooleanLiteral(a), NodeView::BooleanLiteral(b)) => a == b,
        _ => false,
    }
}

/// The message for a constructor applied to the wrong number of arguments.
pub open spec fn arity_message(name: Seq<char>, want: nat, got: nat) -> Seq<char> {
    "Constructor "@ + name + " expects "@ + decimal(want) + " arguments, but got "@ + decimal(got)
}

/// The message for an argument whose type the field does not admit.
pub open spec fn mismatch_message(name: Seq<char>, expected: TypeV, found: TypeV) -> Seq<char> {
    "Type mismatch in constructor "@ + name + ": expected "@ + type_text(expected) + ", found "@ + type_text(found)
}

/// What matching `p` against value `v` of type `t` gives, with the variables
/// bound so far (name to type name): success or the error's kind and message,
/// and the variables bound after. A variable binds a new name; a name bound
/// already fails. A constructor pattern needs a call of a declared constructor
/// with as many arguments as it has fields; each argument's type must be
/// admitted by its field's type and the argument must match its pattern, in
/// turn, the first failure ending the match.
pub open spec fn pm(
    env: Seq<(Seq<char>, TypeV)>,
    bound: Map<Seq<char>, Seq<char>>,
    p: PatternV,
    v: NodeView,
    t: TypeV,
) -> (Result<(), (ErrorKind, Seq<char>)>, Map<Seq<char>, Seq<char>>)
    decreases p, 0nat,
{
    match p {
        PatternV::Literal(lit) => (
            if literal_matches(lit, v) {
                Ok(())
            } else {
                Err((ErrorKind::RuntimeError, "Pattern match failed"@))
            },
            bound,
        ),
        PatternV::Variable(name) => if bound.dom().contains(name) {
            (Err((ErrorKind::RuntimeError, redefinition_message(name))), bound)
        } else {
            (Ok(()), bound.insert(name, type_text(t)))
        },
        PatternV::Wildcard => (Ok(()), bound),
        PatternV::Constructor { name, fields } => match v {
            NodeView::FunctionCall { name: callee, arguments } => match lookup(env, callee) {
                None => (Err((ErrorKind::RuntimeError, "Unknown constructor: "@ + callee)), bound),
                Some(ct) => if arguments.len() != fields.len() {
                    (Err((ErrorKind::RuntimeError, arity_message(name, fields.len(), arguments.len()))), bound)
                } else {
                    match field_types(ct) {
                        Err(m) => (Err((ErrorKind::TypeError, m)), bound),
                        Ok(fts) => pm_fields(env, bound, name, fields, arguments, fts, 0),
                    }
                },
            },
            _ => (Err((ErrorKind::RuntimeError, "Expected constructor application"@)), bound),
        },
    }
}

/// Matching the field patterns from the `i`-th on against the arguments, up to
/// the shortest of patterns, arguments and field types.
pub open spec fn pm_fields(
    env: Seq<(Seq<char>, TypeV)>,
    bound: Map<Seq<char>, Seq<char>>,
    cname: Seq<char>,
    fields: Seq<PatternV>,
    args: Seq<NodeView>,
    fts: Seq<TypeV>,
    i: nat,
) -> (Result<(), (ErrorKind, Seq<char>)>, Map<Seq<char>, Seq<char>>)
    decreases fields, fields.len() - i,
{
    if i >= fields.len() || i >= args.len() || i >= fts.len() {
        (Ok(()), bound)
    } else {
        match infer(env, args[i as int]) {
            Err(e) => (Err(e), bound),
            Ok(at) => if !compatible(fts[i as int], at) {
                (Err((ErrorKind::TypeError, mismatch_message(cname, fts[i as int], at))), bound)
            } else {
                let (r, b2) = pm(env, bound, fields[i as int], args[i as int], fts[i as int]);
                match r {
                    Err(e) => (Err(e), b2),
                    Ok(()) => pm_fields(env, b2, cname, fields, args, fts, i + 1),
                }
            },
        }
    }
}

/// The declared types, in the order they were declared.
pub open spec fn env_v(v: Seq<(String, MatchType)>) -> Seq<(Seq<char>, TypeV)> {
    v.map_values(|e: (String, MatchType)| (e.0@, e.1@))
}

/// The name of the kind of a node.
fn node_kind_str(n: &ASTNode) -> (r: &'static str)
    ensures
        r@ == node_kind(n@),
{
    let r = match n {
        ASTNode::Program(_) => "Program",
        ASTNode::Function { .. } => "Function",
        ASTNode::VariableDeclaration { .. } => "VariableDeclaration",
        ASTNode::Assignment { .. } => "Assignment",
        ASTNode::If { .. } => "If",
        ASTNode::IfExpression { .. } => "IfExpression",
        ASTNode::While { .. } => "While",
        ASTNode::Return(_) => "Return",
        ASTNode::Break => "Break",
        ASTNode::Continue => "Continue",
        ASTNode::Block(_) => "Block",
        ASTNode::BinaryOperation { .. } => "BinaryOperation",
        ASTNode::UnaryOperation { .. } => "UnaryOperation",
        ASTNode::ArrayIndex { .. } => "ArrayIndex",
        ASTNode::FunctionCall { .. } => "FunctionCall",
        ASTNode::ArrayLiteral(_) => "ArrayLiteral",
        ASTNode::Identifier(_) => "Identifier",
        ASTNode::IntegerLiteral(_) => "IntegerLiteral",
        ASTNode::FloatLiteral(_) => "FloatLiteral",
        ASTNode::StringLiteral(_) => "StringLiteral",
        ASTNode::BooleanLiteral(_) => "BooleanLiteral",
    };
    r
}

/// Matches patterns against values in a scope of its own, nested in the scope
/// it is made with, where variables are bound; constructors and the names
/// whose types are inferred are looked up among the declared types.
#[derive(Debug)]
pub struct PatternMatcher {
    scope: Scope,
    types: Vec<(String, MatchType)>,
}

impl PatternMatcher {
    /// The declared types, in order.
    pub closed spec fn spec_env(&self) -> Seq<(Seq<char>, TypeV)> {
        env_v(self.types@)
    }

    /// The matcher's own scope.
    pub closed spec fn spec_scope(&self) -> Scope {
        self.scope
    }

    /// The variables bound in the matcher's own scope, with their type names.
    pub open spec fn spec_bound(&self) -> Map<Seq<char>, Seq<char>> {
        Map::new(
            |n: Seq<char>| self.spec_scope().defines(n),
            |n: Seq<char>|
                match self.spec_scope().resolve(n) {
                    Some(sym) => sym.ty_name@,
                    None => Seq::empty(),
                },
        )
    }

    /// The scope is well formed.
    pub open spec fn wf(&self) -> bool {
        self.spec_scope().wf()
    }

    /// A matcher with an empty scope of its own in `parent_scope`, and no
    /// declared type.
    pub fn new(parent_scope: Scope) -> (r: Self)
        requires
            parent_scope.wf(),
        ensures
            r.wf(),
            r.spec_scope().spec_parent() == Some(parent_scope),
            r.spec_bound() == Map::<Seq<char>, Seq<char>>::empty(),
            r.spec_env().len() == 0,
    {
        let r = PatternMatcher { scope: Scope::with_parent(parent_scope), types: Vec::new() };
        assert(r.spec_bound() =~= Map::<Seq<char>, Seq<char>>::empty());
        assert(r.spec_env() =~= Seq::<(Seq<char>, TypeV)>::empty());
        r
    }

    /// Declares the type of a name: a constructor, a function, or a variable
    /// whose type is inferred.
    pub fn declare_type(&mut self, name: &str, ty: MatchType)
        ensures
            final(self).spec_env() == old(self).spec_env().push((name@, ty@)),
            final(self).spec_scope() == old(self).spec_scope(),
    {
        self.types.push((to_owned_string(name), ty));
        assert(self.spec_env() =~= old(self).spec_env().push((name@, ty@)));
    }

    /// The type declared last for a name.
    pub fn lookup_type(&self, name: &str) -> (r: Option<MatchType>)
        ensures
            match lookup(self.spec_env(), name@) {
                Some(t) => r matches Some(x) && x@ == t,
                None => r is None,
            },
    {
        let ghost env = self.spec_env();
        let mut i: usize = self.types.len();
        proof {
            assert(env.subrange(0, i as int) =~= env);
        }
        while i > 0
            invariant
                i <= self.types@.len(),
                env == self.spec_env(),
                lookup(env.subrange(0, i as int), name@) == lookup(env, name@),
            decreases i,
        {
            let ghost pre = env.subrange(0, i as int);
            proof {
                assert(pre.last() == (self.types@[i - 1].0@, self.types@[i - 1].1@));
                assert(pre.drop_last() =~= env.subrange(0, i - 1));
            }
            if str_eq(self.types[i - 1].0.as_str(), name) {
                return Some(copy_type(&self.types[i - 1].1));
            }
            i = i - 1;
        }
        None
    }

    /// The type of a node, as [`infer`] says.
    pub fn infer_type(&self, node: &ASTNode) -> (r: Result<MatchType, IoError>)
        ensures
            match infer(self.spec_env(), node@) {
                Ok(t) => r matches Ok(x) && x@ == t,
                Err((k, m)) => r matches Err(e) && e.spec_kind() == k && e.spec_message() == m,
            },
        decreases node, 0nat,
    {
        match node {
            ASTNode::IntegerLiteral(_) => Ok(MatchType::Integer),
            ASTNode::FloatLiteral(_) => Ok(MatchType::Float),
            ASTNode::StringLiteral(_) => Ok(MatchType::String),
            ASTNode::BooleanLiteral(_) => Ok(MatchType::Boolean),
            ASTNode::ArrayLiteral(es) => {
                proof {
                    lemma_nodes_view(es@);
                }
                if es.len() == 0 {
                    assert(infer(self.spec_env(), node@) == Ok::<TypeV, (ErrorKind, Seq<char>)>(TypeV::Array(Box::new(TypeV::Unknown))));
                    let u = MatchType::Unknown;
                    assert(type_v(u) == TypeV::Unknown);
                    Ok(MatchType::Array(Box::new(u)))
                } else {
                    assert(infer(self.spec_env(), node@) == infer_elements(self.spec_env(), nodes_view(es@)));
                    self.infer_elements(es)
                }
            },
            ASTNode::Identifier(name) => match self.lookup_type(name.as_str()) {
                Some(t) => Ok(t),
                None => {
                    let mut m = to_owned_string("Cannot infer type of undefined variable: ");
                    push_str(&mut m, name.as_str());
                    Err(IoError::runtime_error(m.as_str()))
                },
            },
            ASTNode::FunctionCall { name, .. } => match self.lookup_type(name.as_str()) {
                None => {
                    let mut m = to_owned_string("Unknown function: ");
                    push_str(&mut m, name.as_str());
                    Err(IoError::runtime_error(m.as_str()))
                },
                Some(MatchType::Function { params, return_type }) => {
                    let rt = *return_type;
                    assert(type_v(MatchType::Function { params, return_type: Box::new(rt) }) matches TypeV::Function {
                        return_type: r2,
                        ..
                    } && *r2 == type_v(rt));
                    Ok(rt)
                },
                Some(other) => {
                    assert(!(type_v(other) is Function));
                    Err(IoError::type_error("Expected function type"))
                },
            },
            _ => {
                let mut m = to_owned_string("Cannot infer type of ");
                push_str(&mut m, node_kind_str(node));
                Err(IoError::runtime_error(m.as_str()))
            },
        }
    }

    /// The type of a non-empty array literal's elements, as
    /// [`infer_elements`] says.
    fn infer_elements(&self, es: &Vec<ASTNode>) -> (r: Result<MatchType, IoError>)
        requires
            es@.len() > 0,
        ensures
            match infer_elements(self.spec_env(), nodes_view(es@)) {
                Ok(t) => r matches Ok(x) && x@ == t,
                Err((k, m)) => r matches Err(e) && e.spec_kind() == k && e.spec_message() == m,
            },
        decreases es, es@.len() + 1,
    {
        proof {
            lemma_nodes_view(es@);
        }
        let ghost ev = nodes_view(es@);
        let first = match self.infer_type(&es[0]) {
            Ok(t) => t,
            Err(e) => {
                return Err(e);
            },
        };
        let mut i: usize = 1;
        while i < es.len()
            invariant
                1 <= i <= es@.len(),
                ev == nodes_view(es@),
                ev.len() == es@.len(),
                forall|k: int| 0 <= k < es@.len() ==> #[trigger] ev[k] == es@[k]@,
                infer(self.spec_env(), ev[0]) == Ok::<TypeV, (ErrorKind, Seq<char>)>(first@),
                check_elements(self.spec_env(), ev, first@, i as nat) == check_elements(self.spec_env(), ev, first@, 1),
            decreases es.len() - i,
        {
            match self.infer_type(&es[i]) {
                Err(e) => {
                    return Err(e);
                },
                Ok(u) => {
                    if !types_compatible(&first, &u) {
                        return Err(IoError::type_error("Inconsistent array element types"));
                    }
                },
            }
            i = i + 1;
        }
        Ok(MatchType::Array(Box::new(first)))
    }


    /// A literal pattern against a value: equal integers, strings or booleans
    /// match; anything else fails with "Pattern match failed".
    fn match_literal(&self, lit: &ASTNode, value: &ASTNode) -> (r: Result<(), IoError>)
        ensures
            literal_matches(lit@, value@) ==> r is Ok,
            !literal_matches(lit@, value@) ==> (r matches Err(e) && e.spec_kind() == ErrorKind::RuntimeError
                && e.spec_message() == "Pattern match failed"@),
    {
        let ok = match (lit, value) {
            (ASTNode::IntegerLiteral(l), ASTNode::IntegerLiteral(v)) => *l == *v,
            (ASTNode::StringLiteral(l), ASTNode::StringLiteral(v)) => str_eq(l.as_str(), v.as_str()),
            (ASTNode::BooleanLiteral(l), ASTNode::BooleanLiteral(v)) => *l == *v,
            _ => false,
        };
        if ok {
            Ok(())
        } else {
            Err(IoError::runtime_error("Pattern match failed"))
        }
    }

    /// Binds a variable of the value's type in the matcher's scope; a name
    /// bound there already fails.
    fn bind_variable(&mut self, name: &str, value_type: &MatchType) -> (r: Result<(), IoError>)
        requires
            old(self).wf(),
        ensures
            final(self).wf(),
            final(self).spec_env() == old(self).spec_env(),
            final(self).spec_scope().spec_parent() == old(self).spec_scope().spec_parent(),
            old(self).spec_bound().dom().contains(name@) ==> (r matches Err(e) && e.spec_kind()
                == ErrorKind::RuntimeError && e.spec_message() == redefinition_message(name@)
                && final(self).spec_bound() == old(self).spec_bound()),
            !old(self).spec_bound().dom().contains(name@) ==> (r is Ok && final(self).spec_bound() == old(
                self,
            ).spec_bound().insert(name@, type_text(value_type@))),
    {
        let t = type_name_text(value_type);
        match self.scope.define(name, t.as_str(), false) {
            Ok(()) => {
                proof {
                    let a = old(self).spec_bound();
                    let b = self.spec_bound();
                    assert forall|n: Seq<char>| b.dom().contains(n) == a.insert(name@, t@).dom().contains(n) by {
                        if n != name@ {
                            assert(self.scope.resolve(n) == old(self).scope.resolve(n));
                            assert(self.scope.defines(n) == old(self).scope.defines(n));
                        }
                    }
                    assert forall|n: Seq<char>| b.dom().contains(n) implies b[n] == a.insert(name@, t@)[n] by {
                        if n != name@ {
                            assert(self.scope.resolve(n) == old(self).scope.resolve(n));
                        }
                    }
                    assert(b =~= a.insert(name@, t@));
                }
                Ok(())
            },
            Err(m) => {
                proof {
                    assert(self.spec_bound() =~= old(self).spec_bound());
                }
                Err(IoError::runtime_error(m.as_str()))
            },
        }
    }

    /// Matches a value of a type against a pattern, as [`pm`] says: the result,
    /// and the variables bound in the matcher's scope after.
    pub fn match_pattern(&mut self, pattern: &Pattern, value: &ASTNode, value_type: &MatchType) -> (r: Result<
        (),
        IoError,
    >)
        requires
            old(self).wf(),
        ensures
            final(self).wf(),
            final(self).spec_env() == old(self).spec_env(),
            final(self).spec_scope().spec_parent() == old(self).spec_scope().spec_parent(),
            ({
                let (res, b) = pm(old(self).spec_env(), old(self).spec_bound(), pattern@, value@, value_type@);
                &&& final(self).spec_bound() == b
                &&& match res {
                    Ok(()) => r is Ok,
                    Err((k, m)) => r matches Err(e) && e.spec_kind() == k && e.spec_message() == m,
                }
            }),
        decreases pattern, 0nat,
    {
        match pattern {
            Pattern::Literal(lit) => self.match_literal(lit, value),
            Pattern::Variable(name) => self.bind_variable(name.as_str(), value_type),
            Pattern::Wildcard => Ok(()),
            Pattern::Constructor { name, fields } => self.match_constructor(name, fields, value),
        }
    }

    /// Matches a constructor pattern against a value, as [`pm`] says of it.
    fn match_constructor(&mut self, name: &String, fields: &Vec<Pattern>, value: &ASTNode) -> (r: Result<
        (),
        IoError,
    >)
        requires
            old(self).wf(),
        ensures
            final(self).wf(),
            final(self).spec_env() == old(self).spec_env(),
            final(self).spec_scope().spec_parent() == old(self).spec_scope().spec_parent(),
            ({
                let (res, b) = pm(
                    old(self).spec_env(),
                    old(self).spec_bound(),
                    PatternV::Constructor { name: name@, fields: patterns_v(fields@) },
                    value@,
                    TypeV::Unknown,
                );
                &&& final(self).spec_bound() == b
                &&& match res {
                    Ok(()) => r is Ok,
                    Err((k, m)) => r matches Err(e) && e.spec_kind() == k && e.spec_message() == m,
                }
            }),
        decreases fields, 1nat,
    {
        proof {
            lemma_patterns_v(fields@);
        }
        match value {
            ASTNode::FunctionCall { name: callee, arguments } => {
                proof {
                    lemma_nodes_view(arguments@);
                }
                let ct = match self.lookup_type(callee.as_str()) {
                    Some(t) => t,
                    None => {
                        let mut m = to_owned_string("Unknown constructor: ");
                        push_str(&mut m, callee.as_str());
                        return Err(IoError::runtime_error(m.as_str()));
                    },
                };
                if arguments.len() != fields.len() {
                    let mut m = to_owned_string("Constructor ");
                    push_str(&mut m, name.as_str());
                    push_str(&mut m, " expects ");
                    push_decimal(&mut m, fields.len());
                    push_str(&mut m, " arguments, but got ");
                    push_decimal(&mut m, arguments.len());
                    return Err(IoError::runtime_error(m.as_str()));
                }
                let fts = match self.get_constructor_field_types(&ct) {
                    Ok(f) => f,
                    Err(e) => {
                        return Err(e);
                    },
                };
                proof {
                    lemma_types_v(fts@);
                }
                let ghost env = self.spec_env();
                let ghost fv = patterns_v(fields@);
                let ghost av = nodes_view(arguments@);
                let ghost ftv = types_v(fts@);
                let ghost total = pm_fields(env, old(self).spec_bound(), name@, fv, av, ftv, 0);
                assert(pm(env, old(self).spec_bound(), PatternV::Constructor { name: name@, fields: fv }, value@, TypeV::Unknown) == total);
                let mut i: usize = 0;
                while i < fields.len() && i < arguments.len() && i < fts.len()
                    invariant
                        self.wf(),
                        env == self.spec_env(),
                        env == old(self).spec_env(),
                        self.spec_scope().spec_parent() == old(self).spec_scope().spec_parent(),
                        fv == patterns_v(fields@),
                        fv.len() == fields@.len(),
                        forall|k: int| 0 <= k < fields@.len() ==> #[trigger] fv[k] == pattern_v(fields@[k]),
                        av == nodes_view(arguments@),
                        av.len() == arguments@.len(),
                        forall|k: int| 0 <= k < arguments@.len() ==> #[trigger] av[k] == arguments@[k]@,
                        ftv == types_v(fts@),
                        ftv.len() == fts@.len(),
                        forall|k: int| 0 <= k < fts@.len() ==> #[trigger] ftv[k] == fts@[k]@,
                        pm_fields(env, self.spec_bound(), name@, fv, av, ftv, i as nat) == total,
                        pm(old(self).spec_env(), old(self).spec_bound(), PatternV::Constructor { name: name@, fields: fv }, value@, TypeV::Unknown) == total,
                    decreases fields.len() - i,
                {
                    let at = match self.infer_type(&arguments[i]) {
                        Ok(t) => t,
                        Err(e) => {
                            return Err(e);
                        },
                    };
                    if !types_compatible(&fts[i], &at) {
                        let mut m = to_owned_string("Type mismatch in constructor ");
                        push_str(&mut m, name.as_str());
                        push_str(&mut m, ": expected ");
                        let a = type_name_text(&fts[i]);
                        push_str(&mut m, a.as_str());
                        push_str(&mut m, ", found ");
                        let b = type_name_text(&at);
                        push_str(&mut m, b.as_str());
                        return Err(IoError::type_error(m.as_str()));
                    }
                    match self.match_pattern(&fields[i], &arguments[i], &fts[i]) {
                        Err(e) => {
                            return Err(e);
                        },
                        Ok(()) => {},
                    }
                    i = i + 1;
                }
                Ok(())
            },
            _ => Err(IoError::runtime_error("Expected constructor application")),
        }
    }

    /// The field types of a constructor type, as [`field_types`] says; any
    /// other type fails with a type error.
    pub fn get_constructor_field_types(&self, constructor_type: &MatchType) -> (r: Result<Vec<MatchType>, IoError>)
        ensures
            match field_types(constructor_type@) {
                Ok(f) => r matches Ok(x) && types_v(x@) == f,
                Err(m) => r matches Err(e) && e.spec_kind() == ErrorKind::TypeError && e.spec_message() == m,
            },
    {
        match constructor_type {
            MatchType::Constructor { fields, .. } => Ok(copy_types(fields)),
            MatchType::Enum { variants, .. } => {
                proof {
                    lemma_variants_v(variants@);
                }
                let ghost vv = variants_v(variants@);
                let mut out: Vec<MatchType> = Vec::new();
                let mut i: usize = 0;
                proof {
                    assert(vv.subrange(0, 0) =~= Seq::<(Seq<char>, Seq<TypeV>)>::empty());
                    assert(types_v(out@) =~= flatten_fields(vv.subrange(0, 0)));
                }
                while i < variants.len()
                    invariant
                        i <= variants@.len(),
                        vv == variants_v(variants@),
                        vv.len() == variants@.len(),
                        forall|k: int| 0 <= k < variants@.len() ==> #[trigger] vv[k] == (variants@[k].name@, types_v(variants@[k].fields@)),
                        types_v(out@) == flatten_fields(vv.subrange(0, i as int)),
                    decreases variants.len() - i,
                {
                    let fs = &variants[i].fields;
                    proof {
                        lemma_types_v(fs@);
                    }
                    let ghost base = out@;
                    let mut j: usize = 0;
                    while j < fs.len()
                        invariant
                            j <= fs@.len(),
                            out@.len() == base.len() + j,
                            out@.subrange(0, base.len() as int) == base,
                            types_v(out@) == types_v(base) + types_v(fs@).subrange(0, j as int),
                            types_v(fs@).len() == fs@.len(),
                            forall|k: int| 0 <= k < fs@.len() ==> #[trigger] types_v(fs@)[k] == type_v(fs@[k]),
                        decreases fs.len() - j,
                    {
                        let c = copy_type(&fs[j]);
                        proof {
                            assert(out@.push(c).drop_last() =~= out@);
                            assert(types_v(fs@).subrange(0, j + 1) =~= types_v(fs@).subrange(0, j as int).push(type_v(fs@[j as int])));
                        }
                        out.push(c);
                        proof {
                            assert(out@.subrange(0, base.len() as int) =~= base);
                        }
                        j = j + 1;
                    }
                    proof {
                        assert(types_v(fs@).subrange(0, fs@.len() as int) =~= types_v(fs@));
                        assert(vv.subrange(0, i + 1).drop_last() =~= vv.subrange(0, i as int));
                    }
                    i = i + 1;
                }
                proof {
                    assert(vv.subrange(0, vv.len() as int) =~= vv);
                }
                Ok(out)
            },
            _ => {
                let mut m = to_owned_string("Expected constructor type, found ");
                let t = type_name_text(constructor_type);
                push_str(&mut m, t.as_str());
                Err(IoError::type_error(m.as_str()))
            },
        }
    }
}


/// A type with no enumeration in it.
pub open spec fn enum_free(t: TypeV) -> bool
    decreases t,
{
    match t {
        TypeV::Array(e) => enum_free(*e),
        TypeV::Function { params, return_type } => all_enum_free(params) && enum_free(*return_type),
        TypeV::Constructor { fields, .. } => all_enum_free(fields),
        TypeV::Enum { .. } => false,
        _ => true,
    }
}

/// Types with no enumeration in them.
pub open spec fn all_enum_free(v: Seq<TypeV>) -> bool
    decreases v,
{
    if v.len() == 0 {
        true
    } else {
        enum_free(v[0]) && all_enum_free(v.drop_first())
    }
}

/// Compatibility goes both ways: a value of type `b` may stand where `a` is
/// expected exactly when one of type `a` may stand where `b` is.
pub proof fn law_compatible_symmetric(a: TypeV, b: TypeV)
    ensures
        compatible(a, b) == compatible(b, a),
    decreases a,
{
    match (a, b) {
        (TypeV::Array(x), TypeV::Array(y)) => {
            law_compatible_symmetric(*x, *y);
        },
        (TypeV::Function { params: p1, return_type: r1 }, TypeV::Function { params: p2, return_type: r2 }) => {
            law_all_compatible_symmetric(p1, p2);
            law_compatible_symmetric(*r1, *r2);
        },
        (TypeV::Constructor { fields: f1, .. }, TypeV::Constructor { fields: f2, .. }) => {
            law_all_compatible_symmetric(f1, f2);
        },
        _ => {},
    }
}

/// Compatibility of lists goes both ways.
pub proof fn law_all_compatible_symmetric(a: Seq<TypeV>, b: Seq<TypeV>)
    ensures
        all_compatible(a, b) == all_compatible(b, a),
    decreases a,
{
    if a.len() > 0 && b.len() > 0 {
        law_compatible_symmetric(a[0], b[0]);
        law_all_compatible_symmetric(a.drop_first(), b.drop_first());
    }
}

/// Every type without an enumeration admits itself. (An enumeration admits
/// no enumeration, itself included, as the matcher compares only the kinds it
/// lists.)
pub proof fn law_compatible_reflexive(t: TypeV)
    requires
        enum_free(t),
    ensures
        compatible(t, t),
    decreases t,
{
    match t {
        TypeV::Array(e) => {
            law_compatible_reflexive(*e);
        },
        TypeV::Function { params, return_type } => {
            law_all_compatible_reflexive(params);
            law_compatible_reflexive(*return_type);
        },
        TypeV::Constructor { fields, .. } => {
            law_all_compatible_reflexive(fields);
        },
        _ => {},
    }
}

/// Every list of types without an enumeration admits itself.
pub proof fn law_all_compatible_reflexive(v: Seq<TypeV>)
    requires
        all_enum_free(v),
    ensures
        all_compatible(v, v),
    decreases v,
{
    if v.len() > 0 {
        law_compatible_reflexive(v[0]);
        law_all_compatible_reflexive(v.drop_first());
    }
}


/// The wildcard matches any value and binds nothing; a variable not yet bound
/// matches any value and binds its name to the value's type.
pub proof fn law_wildcard_and_variable(
    env: Seq<(Seq<char>, TypeV)>,
    bound: Map<Seq<char>, Seq<char>>,
    name: Seq<char>,
    v: NodeView,
    t: TypeV,
)
    ensures
        pm(env, bound, PatternV::Wildcard, v, t) == (Ok::<(), (ErrorKind, Seq<char>)>(()), bound),
        !bound.dom().contains(name) ==> pm(env, bound, PatternV::Variable(name), v, t) == (
            Ok::<(), (ErrorKind, Seq<char>)>(()),
            bound.insert(name, type_text(t)),
        ),
{
}

/// An integer, string or boolean literal.
pub open spec fn is_plain_literal(n: NodeView) -> bool {
    ||| n is IntegerLiteral
    ||| n is StringLiteral
    ||| n is BooleanLiteral
}

/// A literal pattern matches exactly the values equal to it (integer, string
/// and boolean literals), binds nothing, and fails with "Pattern match failed"
/// on any other value.
pub proof fn law_literal_pattern_matches_equal_values(
    env: Seq<(Seq<char>, TypeV)>,
    bound: Map<Seq<char>, Seq<char>>,
    lit: NodeView,
    v: NodeView,
    t: TypeV,
)
    ensures
        pm(env, bound, PatternV::Literal(lit), v, t).0 is Ok <==> (lit == v && is_plain_literal(lit)),
        pm(env, bound, PatternV::Literal(lit), v, t).0 is Err ==> pm(env, bound, PatternV::Literal(lit), v, t).0
            == Err::<(), (ErrorKind, Seq<char>)>((ErrorKind::RuntimeError, "Pattern match failed"@)),
        pm(env, bound, PatternV::Literal(lit), v, t).1 == bound,
{
}

/// A wildcard matches every value and binds nothing; a variable matches every
/// value and binds its name to the value's type, unless the name is bound
/// already.
pub proof fn law_wildcard_and_variable_patterns(
    env: Seq<(Seq<char>, TypeV)>,
    bound: Map<Seq<char>, Seq<char>>,
    name: Seq<char>,
    v: NodeView,
    t: TypeV,
)
    ensures
        pm(env, bound, PatternV::Wildcard, v, t) == (Ok::<(), (ErrorKind, Seq<char>)>(()), bound),
        !bound.dom().contains(name) ==> pm(env, bound, PatternV::Variable(name), v, t) == (
            Ok::<(), (ErrorKind, Seq<char>)>(()),
            bound.insert(name, type_text(t)),
        ),
        bound.dom().contains(name) ==> pm(env, bound, PatternV::Variable(name), v, t).0 is Err
            && pm(env, bound, PatternV::Variable(name), v, t).1 == bound,
{
}

/// Every name bound in `before` is bound in `after`, to the same type name.
pub open spec fn keeps_bindings(before: Map<Seq<char>, Seq<char>>, after: Map<Seq<char>, Seq<char>>) -> bool {
    forall|k: Seq<char>| #[trigger] before.dom().contains(k) ==> after.dom().contains(k) && after[k] == before[k]
}

/// Matching never unbinds or rebinds a variable bound before, whether it
/// succeeds or fails; and a constructor pattern matches only a call of a
/// declared constructor with one argument per field.
pub proof fn law_matching_keeps_bindings(
    env: Seq<(Seq<char>, TypeV)>,
    bound: Map<Seq<char>, Seq<char>>,
    p: PatternV,
    v: NodeView,
    t: TypeV,
)
    ensures
        keeps_bindings(bound, pm(env, bound, p, v, t).1),
        p is Constructor && pm(env, bound, p, v, t).0 is Ok ==> v is FunctionCall && lookup(env, v->FunctionCall_name)
            is Some && v->FunctionCall_arguments.len() == p->Constructor_fields.len(),
    decreases p, 0nat,
{
    match p {
        PatternV::Constructor { name, fields } => {
            match v {
                NodeView::FunctionCall { name: callee, arguments } => {
                    match lookup(env, callee) {
                        Some(ct) => {
                            if arguments.len() == fields.len() {
                                match field_types(ct) {
                                    Ok(fts) => {
                                        lemma_fields_keep_bindings(env, bound, name, fields, arguments, fts, 0);
                                    },
                                    Err(_) => {},
                                }
                            }
                        },
                        None => {},
                    }
                },
                _ => {},
            }
        },
        _ => {},
    }
}

/// Matching field patterns never unbinds or rebinds a variable bound before.
proof fn lemma_fields_keep_bindings(
    env: Seq<(Seq<char>, TypeV)>,
    bound: Map<Seq<char>, Seq<char>>,
    cname: Seq<char>,
    fields: Seq<PatternV>,
    args: Seq<NodeView>,
    fts: Seq<TypeV>,
    i: nat,
)
    ensures
        keeps_bindings(bound, pm_fields(env, bound, cname, fields, args, fts, i).1),
    decreases fields, fields.len() - i,
{
    if i >= fields.len() || i >= args.len() || i >= fts.len() {
    } else {
        match infer(env, args[i as int]) {
            Err(e) => {},
            Ok(at) => if !compatible(fts[i as int], at) {
            } else {
                law_matching_keeps_bindings(env, bound, fields[i as int], args[i as int], fts[i as int]);
                let (r, b2) = pm(env, bound, fields[i as int], args[i as int], fts[i as int]);
                match r {
                    Err(e) => {},
                    Ok(()) => {
                        lemma_fields_keep_bindings(env, b2, cname, fields, args, fts, i + 1);
                    },
                }
            },
        }
    }
}

} // verus!
