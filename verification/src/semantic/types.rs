//! The types the semantic analysis assigns to expressions.
use vstd::prelude::*;
use crate::error::{IoError, ErrorKind};
use crate::text::{push_str, to_owned_string, str_eq};

verus! {

/// A type of the source language.
#[derive(Debug)]
pub enum Type {
    Int,
    Float,
    Bool,
    String,
    Unit,
    Unknown,
    Array(Box<Type>),
    Function { params: Vec<Type>, return_type: Box<Type> },
}

/// The abstract value of a type.
pub enum TypeView {
    Int,
    Float,
    Bool,
    String,
    Unit,
    Unknown,
    Array(Box<TypeView>),
    Function { params: Seq<TypeView>, return_type: Box<TypeView> },
}

/// The abstract value of a type.
pub open spec fn sem_view(t: Type) -> TypeView
    decreases t,
{
    match t {
        Type::Int => TypeView::Int,
        Type::Float => TypeView::Float,
        Type::Bool => TypeView::Bool,
        Type::String => TypeView::String,
        Type::Unit => TypeView::Unit,
        Type::Unknown => TypeView::Unknown,
        Type::Array(e) => TypeView::Array(Box::new(sem_view(*e))),
        Type::Function { params, return_type } => TypeView::Function {
            params: sem_views(params@),
            return_type: Box::new(sem_view(*return_type)),
        },
    }
}

/// The abstract values of a sequence of types.
pub open spec fn sem_views(v: Seq<Type>) -> Seq<TypeView>
    decreases v,
{
    if v.len() == 0 {
        Seq::empty()
    } else {
        sem_views(v.drop_last()).push(sem_view(v.last()))
    }
}

impl View for Type {
    type V = TypeView;

    open spec fn view(&self) -> TypeView {
        sem_view(*self)
    }
}

/// The views of a sequence of types, one per type.
pub proof fn lemma_sem_views(v: Seq<Type>)
    ensures
        sem_views(v).len() == v.len(),
        forall|i: int| 0 <= i < v.len() ==> #[trigger] sem_views(v)[i] == sem_view(v[i]),
    decreases v.len(),
{
    if v.len() > 0 {
        lemma_sem_views(v.drop_last());
        assert forall|i: int| 0 <= i < v.len() implies #[trigger] sem_views(v)[i] == sem_view(v[i]) by {
            if i < v.len() - 1 {
                assert(v.drop_last()[i] == v[i]);
            }
        }
    }
}

/// Whether a value of type `actual` may stand where `expected` is wanted: the
/// same scalar type, arrays of matching elements, or functions with matching
/// parameters and results. `unit` and `unknown` match nothing.
pub open spec fn type_matches(expected: TypeView, actual: TypeView) -> bool
    decreases expected,
{
    match (expected, actual) {
        (TypeView::Int, TypeView::Int) => true,
        (TypeView::Float, TypeView::Float) => true,
        (TypeView::Bool, TypeView::Bool) => true,
        (TypeView::String, TypeView::String) => true,
        (TypeView::Array(a), TypeView::Array(b)) => type_matches(*a, *b),
        (TypeView::Function { params: p1, return_type: r1 }, TypeView::Function { params: p2, return_type: r2 }) => {
            p1.len() == p2.len() && all_match(p1, p2) && type_matches(*r1, *r2)
        },
        _ => false,
    }
}

/// Whether the types match one by one.
pub open spec fn all_match(a: Seq<TypeView>, b: Seq<TypeView>) -> bool
    decreases a,
{
    if a.len() == 0 {
        true
    } else if b.len() == 0 {
        false
    } else {
        all_match(a.drop_last(), b.drop_last()) && type_matches(a.last(), b.last())
    }
}

/// The name a type is shown by.
pub open spec fn shown_name(t: TypeView) -> Seq<char>
    decreases t,
{
    match t {
        TypeView::Int => "int"@,
        TypeView::Float => "float"@,
        TypeView::Bool => "bool"@,
        TypeView::String => "string"@,
        TypeView::Unit => "unit"@,
        TypeView::Unknown => "unknown"@,
        TypeView::Array(e) => seq!['['] + shown_name(*e) + seq![']'],
        TypeView::Function { params, return_type } => "fn("@ + names_list(params) + ") -> "@ + shown_name(*return_type),
    }
}

/// The names of types separated by commas.
pub open spec fn names_list(v: Seq<TypeView>) -> Seq<char>
    decreases v,
{
    if v.len() == 0 {
        Seq::empty()
    } else if v.len() == 1 {
        shown_name(v[0])
    } else {
        names_list(v.drop_last()) + ", "@ + shown_name(v.last())
    }
}

/// The type a name in a declaration stands for: `int`, `float`, `bool`,
/// `string`, and `unit` or `void`.
pub open spec fn type_of_name(name: Seq<char>) -> Option<TypeView> {
    if name == "int"@ {
        Some(TypeView::Int)
    } else if name == "float"@ {
        Some(TypeView::Float)
    } else if name == "bool"@ {
        Some(TypeView::Bool)
    } else if name == "string"@ {
        Some(TypeView::String)
    } else if name == "unit"@ || name == "void"@ {
        Some(TypeView::Unit)
    } else {
        None
    }
}

impl Type {
    /// The type a name in a declaration stands for; an unknown name is a type
    /// error.
    pub fn from_str(name: &str) -> (r: Result<Type, IoError>)
        ensures
            match type_of_name(name@) {
                Some(t) => r matches Ok(x) && x@ == t,
                None => r matches Err(e) && e.spec_kind() == ErrorKind::TypeError
                    && e.spec_message() == "Unknown type: "@ + name@,
            },
    {
        if str_eq(name, "int") {
            Ok(Type::Int)
        } else if str_eq(name, "float") {
            Ok(Type::Float)
        } else if str_eq(name, "bool") {
            Ok(Type::Bool)
        } else if str_eq(name, "string") {
            Ok(Type::String)
        } else if str_eq(name, "unit") || str_eq(name, "void") {
            Ok(Type::Unit)
        } else {
            let mut m = to_owned_string("Unknown type: ");
            push_str(&mut m, name);
            Err(IoError::type_error(m.as_str()))
        }
    }

    /// The name the type is shown by.
    pub fn to_string(&self) -> (r: String)
        ensures
            r@ == shown_name(self@),
        decreases self,
    {
        match self {
            Type::Int => to_owned_string("int"),
            Type::Float => to_owned_string("float"),
            Type::Bool => to_owned_string("bool"),
            Type::String => to_owned_string("string"),
            Type::Unit => to_owned_string("unit"),
            Type::Unknown => to_owned_string("unknown"),
            Type::Array(e) => {
                let mut s = to_owned_string("[");
                let inner = (**e).to_string();
                push_str(&mut s, inner.as_str());
                push_str(&mut s, "]");
                proof {
                    reveal_strlit("[");
                    reveal_strlit("]");
                    assert(s@ =~= seq!['['] + shown_name(e@) + seq![']']);
                }
                s
            },
            Type::Function { params, return_type } => {
                let mut s = to_owned_string("fn(");
                let list = names_of(params);
                push_str(&mut s, list.as_str());
                push_str(&mut s, ") -> ");
                let ret = (**return_type).to_string();
                push_str(&mut s, ret.as_str());
                s
            },
        }
    }

    /// A copy of the type.
    pub fn duplicate(&self) -> (r: Type)
        ensures
            r@ == self@,
        decreases self,
    {
        match self {
            Type::Int => Type::Int,
            Type::Float => Type::Float,
            Type::Bool => Type::Bool,
            Type::String => Type::String,
            Type::Unit => Type::Unit,
            Type::Unknown => Type::Unknown,
            Type::Array(e) => Type::Array(Box::new((**e).duplicate())),
            Type::Function { params, return_type } => Type::Function {
                params: duplicate_all(params),
                return_type: Box::new((**return_type).duplicate()),
            },
        }
    }
}

/// The names of the types separated by commas.
pub fn names_of(v: &Vec<Type>) -> (r: String)
    ensures
        r@ == names_list(sem_views(v@)),
    decreases v,
{
    proof {
        lemma_sem_views(v@);
    }
    let ghost vs = sem_views(v@);
    let mut out = String::new();
    let mut i: usize = 0;
    while i < v.len()
        invariant
            i <= v@.len(),
            vs == sem_views(v@),
            vs.len() == v@.len(),
            forall|k: int| 0 <= k < v@.len() ==> #[trigger] vs[k] == sem_view(v@[k]),
            out@ == names_list(vs.subrange(0, i as int)),
        decreases v.len() - i,
    {
        if i > 0 {
            push_str(&mut out, ", ");
        }
        let n = v[i].to_string();
        push_str(&mut out, n.as_str());
        proof {
            let pre = vs.subrange(0, i + 1);
            assert(pre.drop_last() =~= vs.subrange(0, i as int));
            if i == 0 {
                assert(names_list(vs.subrange(0, 0)) =~= Seq::<char>::empty());
                assert(out@ =~= shown_name(pre[0]));
            }
        }
        i = i + 1;
    }
    proof {
        assert(vs.subrange(0, v@.len() as int) =~= vs);
    }
    out
}

/// Copies of the types.
pub fn duplicate_all(v: &Vec<Type>) -> (r: Vec<Type>)
    ensures
        sem_views(r@) == sem_views(v@),
    decreases v,
{
    let mut out: Vec<Type> = Vec::new();
    let mut i: usize = 0;
    while i < v.len()
        invariant
            i <= v@.len(),
            out@.len() == i,
            forall|k: int| 0 <= k < i ==> sem_view(#[trigger] out@[k]) == sem_view(v@[k]),
        decreases v.len() - i,
    {
        out.push(v[i].duplicate());
        i = i + 1;
    }
    proof {
        lemma_sem_views(out@);
        lemma_sem_views(v@);
        assert(sem_views(out@) =~= sem_views(v@));
    }
    out
}

/// Whether a value of type `actual` may stand where `expected` is wanted.
pub fn types_match(expected: &Type, actual: &Type) -> (r: bool)
    ensures
        r == type_matches(expected@, actual@),
    decreases expected,
{
    match (expected, actual) {
        (Type::Int, Type::Int) => true,
        (Type::Float, Type::Float) => true,
        (Type::Bool, Type::Bool) => true,
        (Type::String, Type::String) => true,
        (Type::Array(a), Type::Array(b)) => types_match(a, b),
        (Type::Function { params: p1, return_type: r1 }, Type::Function { params: p2, return_type: r2 }) => {
            if p1.len() != p2.len() {
                proof {
                    lemma_sem_views(p1@);
                    lemma_sem_views(p2@);
                }
                return false;
            }
            let all = all_types_match(p1, p2);
            all && types_match(r1, r2)
        },
        _ => false,
    }
}

/// Whether the types match one by one.
fn all_types_match(a: &Vec<Type>, b: &Vec<Type>) -> (r: bool)
    requires
        a@.len() == b@.len(),
    ensures
        r == all_match(sem_views(a@), sem_views(b@)),
        sem_views(a@).len() == sem_views(b@).len(),
    decreases a,
{
    proof {
        lemma_sem_views(a@);
        lemma_sem_views(b@);
    }
    let ghost av = sem_views(a@);
    let ghost bv = sem_views(b@);
    let mut i: usize = 0;
    let mut ok = true;
    while i < a.len()
        invariant
            a@.len() == b@.len(),
            i <= a@.len(),
            av == sem_views(a@),
            bv == sem_views(b@),
            av.len() == a@.len(),
            bv.len() == b@.len(),
            forall|k: int| 0 <= k < a@.len() ==> #[trigger] av[k] == sem_view(a@[k]),
            forall|k: int| 0 <= k < b@.len() ==> #[trigger] bv[k] == sem_view(b@[k]),
            ok == all_match(av.subrange(0, i as int), bv.subrange(0, i as int)),
        decreases a.len() - i,
    {
        let m = types_match(&a[i], &b[i]);
        proof {
            assert(av.subrange(0, i + 1).drop_last() =~= av.subrange(0, i as int));
            assert(bv.subrange(0, i + 1).drop_last() =~= bv.subrange(0, i as int));
        }
        ok = ok && m;
        i = i + 1;
    }
    proof {
        assert(av.subrange(0, a@.len() as int) =~= av);
        assert(bv.subrange(0, b@.len() as int) =~= bv);
    }
    ok
}

} // verus!
