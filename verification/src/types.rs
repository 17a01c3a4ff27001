use vstd::prelude::*;

verus! {

/// The static type the compiler infers for an expression.
#[derive(Debug, PartialEq, Eq)]
pub enum Type {
    Number,
    Str,
    Bool,
    Char,
    Void,
    File,
    Infer,
    Float,
    Iter(Box<Type>),
    Array(Box<Type>),
    Result(Box<(Type, Type)>),
    Cat(Box<Type>),
}

impl Type {
    /// A copy of this type.
    pub fn copy(&self) -> (r: Type)
        ensures
            r == *self,
        decreases self,
    {
        match self {
            Type::Number => Type::Number,
            Type::Str => Type::Str,
            Type::Bool => Type::Bool,
            Type::Char => Type::Char,
            Type::Void => Type::Void,
            Type::File => Type::File,
            Type::Infer => Type::Infer,
            Type::Float => Type::Float,
            Type::Iter(b) => Type::Iter(Box::new(b.copy())),
            Type::Array(b) => Type::Array(Box::new(b.copy())),
            Type::Result(b) => Type::Result(Box::new((b.0.copy(), b.1.copy()))),
            Type::Cat(b) => Type::Cat(Box::new(b.copy())),
        }
    }

    /// Whether two types are the same type.
    pub fn same(&self, other: &Type) -> (r: bool)
        ensures
            r == (*self == *other),
        decreases self,
    {
        match (self, other) {
            (Type::Number, Type::Number) => true,
            (Type::Str, Type::Str) => true,
            (Type::Bool, Type::Bool) => true,
            (Type::Char, Type::Char) => true,
            (Type::Void, Type::Void) => true,
            (Type::File, Type::File) => true,
            (Type::Infer, Type::Infer) => true,
            (Type::Float, Type::Float) => true,
            (Type::Iter(a), Type::Iter(b)) => a.same(b),
            (Type::Array(a), Type::Array(b)) => a.same(b),
            (Type::Result(a), Type::Result(b)) => a.0.same(&b.0) && a.1.same(&b.1),
            (Type::Cat(a), Type::Cat(b)) => a.same(b),
            _ => false,
        }
    }
}

} // verus!
