//! The types of generated code, with their attributes.
use vstd::prelude::*;
use crate::text::to_owned_string;

verus! {

/// The shape of a type.
#[derive(Debug)]
pub enum TypeKind {
    Void,
    Bool,
    /// An integer of the given bit width.
    Int(u32),
    /// A floating-point number of the given bit width.
    Float(u32),
    Pointer(Box<Type>),
    /// Elements and, when fixed, the number of elements.
    Array(Box<Type>, Option<u32>),
    /// Fields and whether the struct is packed.
    Struct(Vec<Type>, bool),
    Function {
        params: Vec<Type>,
        return_type: Box<Type>,
        varargs: bool,
    },
    Vector(Box<Type>, u32),
    Opaque(String),
}

/// Qualifiers of a type.
#[derive(Debug, Clone, Copy, PartialEq, Eq, Structural)]
pub struct TypeAttributes {
    pub volatile: bool,
    pub atomic: bool,
    pub address_space: Option<u32>,
}

impl TypeAttributes {
    /// Neither volatile nor atomic, in the default address space.
    pub open spec fn spec_default() -> TypeAttributes {
        TypeAttributes { volatile: false, atomic: false, address_space: None }
    }
}

impl Default for TypeAttributes {
    fn default() -> (r: Self)
        ensures
            r == TypeAttributes::spec_default(),
    {
        TypeAttributes { volatile: false, atomic: false, address_space: None }
    }
}

/// A type: its shape and its qualifiers.
#[derive(Debug)]
pub struct Type {
    pub kind: TypeKind,
    pub attributes: TypeAttributes,
}

impl Type {
    fn plain(kind: TypeKind) -> (r: Self)
        ensures
            r.kind == kind,
            r.attributes == TypeAttributes::spec_default(),
    {
        Type { kind, attributes: TypeAttributes::default() }
    }

    /// The void type.
    pub fn void() -> (r: Self)
        ensures
            r.kind == TypeKind::Void,
            r.attributes == TypeAttributes::spec_default(),
    {
        Self::plain(TypeKind::Void)
    }

    /// The boolean type.
    pub fn bool() -> (r: Self)
        ensures
            r.kind == TypeKind::Bool,
            r.attributes == TypeAttributes::spec_default(),
    {
        Self::plain(TypeKind::Bool)
    }

    /// The 8-bit integer type.
    pub fn i8() -> (r: Self)
        ensures
            r.kind == TypeKind::Int(8),
            r.attributes == TypeAttributes::spec_default(),
    {
        Self::plain(TypeKind::Int(8))
    }

    /// The 32-bit integer type.
    pub fn i32() -> (r: Self)
        ensures
            r.kind == TypeKind::Int(32),
            r.attributes == TypeAttributes::spec_default(),
    {
        Self::plain(TypeKind::Int(32))
    }

    /// The 64-bit integer type.
    pub fn i64() -> (r: Self)
        ensures
            r.kind == TypeKind::Int(64),
            r.attributes == TypeAttributes::spec_default(),
    {
        Self::plain(TypeKind::Int(64))
    }

    /// The 32-bit floating-point type.
    pub fn float32() -> (r: Self)
        ensures
            r.kind == TypeKind::Float(32),
            r.attributes == TypeAttributes::spec_default(),
    {
        Self::plain(TypeKind::Float(32))
    }

    /// The 64-bit floating-point type.
    pub fn float64() -> (r: Self)
        ensures
            r.kind == TypeKind::Float(64),
            r.attributes == TypeAttributes::spec_default(),
    {
        Self::plain(TypeKind::Float(64))
    }

    /// A pointer to values of type `ty`.
    pub fn ptr(ty: Type) -> (r: Self)
        ensures
            r.kind == TypeKind::Pointer(Box::new(ty)),
            r.attributes == TypeAttributes::spec_default(),
    {
        Self::plain(TypeKind::Pointer(Box::new(ty)))
    }

    /// An array of `ty`, of fixed `size` when one is given.
    pub fn array(ty: Type, size: Option<u32>) -> (r: Self)
        ensures
            r.kind == TypeKind::Array(Box::new(ty), size),
            r.attributes == TypeAttributes::spec_default(),
    {
        Self::plain(TypeKind::Array(Box::new(ty), size))
    }

    /// A function type.
    pub fn function(params: Vec<Type>, return_type: Type, varargs: bool) -> (r: Self)
        ensures
            r.kind == (TypeKind::Function { params, return_type: Box::new(return_type), varargs }),
            r.attributes == TypeAttributes::spec_default(),
    {
        Self::plain(TypeKind::Function { params, return_type: Box::new(return_type), varargs })
    }

    /// A struct type with the given fields, packed or not.
    pub fn struct_type(fields: Vec<Type>, packed: bool) -> (r: Self)
        ensures
            r.kind == TypeKind::Struct(fields, packed),
            r.attributes == TypeAttributes::spec_default(),
    {
        Self::plain(TypeKind::Struct(fields, packed))
    }

    /// An opaque type known only by its name.
    pub fn opaque(name: &str) -> (r: Self)
        ensures
            r.kind is Opaque,
            r.kind->Opaque_0@ == name@,
            r.attributes == TypeAttributes::spec_default(),
    {
        Self::plain(TypeKind::Opaque(to_owned_string(name)))
    }

    /// The same type, marked volatile.
    pub fn with_volatile(self) -> (r: Self)
        ensures
            r.kind == self.kind,
            r.attributes == (TypeAttributes { volatile: true, ..self.attributes }),
    {
        let mut t = self;
        t.attributes.volatile = true;
        t
    }

    /// The same type, marked atomic.
    pub fn with_atomic(self) -> (r: Self)
        ensures
            r.kind == self.kind,
            r.attributes == (TypeAttributes { atomic: true, ..self.attributes }),
    {
        let mut t = self;
        t.attributes.atomic = true;
        t
    }

    /// The same type, in the given address space.
    pub fn with_address_space(self, space: u32) -> (r: Self)
        ensures
            r.kind == self.kind,
            r.attributes == (TypeAttributes { address_space: Some(space), ..self.attributes }),
    {
        let mut t = self;
        t.attributes.address_space = Some(space);
        t
    }
}

} // verus!
