//! The types of Lumo values.
use crate::text::text_eq;
use vstd::prelude::*;

verus! {

/// The type of the elements of an array or of the values of a map. An element may itself
/// be an array or a map; the inner element type is then held by a reference that lives as
/// long as the program, which keeps the type `Copy`.
#[derive(Debug, Clone, Copy, PartialEq, Eq)]
pub enum Elem {
    Int,
    Bool,
    Float,
    Str,
    Struct(&'static str),
    /// A user-defined sum type.
    Enum(&'static str),
    /// An array (`[[T]]`): the element type of the inner array.
    Array(&'static Elem),
    /// A map (`[{string: V}]`). Keys are always strings, so only the value type is held.
    MapOf(&'static Elem),
}

/// The type of a value.
#[derive(Debug, Clone, Copy, PartialEq, Eq)]
pub enum Type {
    Int,
    Bool,
    Float,
    /// An immutable string.
    Str,
    /// An array of elements of one type.
    Array(Elem),
    /// A user-defined structure, by name.
    Struct(&'static str),
    /// A user-defined sum type, by name.
    Enum(&'static str),
    /// A map `{string: V}`.
    MapOf(Elem),
    /// The type of the literal `null`, which fits every reference type.
    Null,
}

/// A type of the language: what both [`Type`] and [`Elem`] stand for.
pub ghost enum Ty {
    Int,
    Bool,
    Float,
    Str,
    Array(Box<Ty>),
    Struct(Seq<char>),
    Enum(Seq<char>),
    MapOf(Box<Ty>),
    Null,
}

/// The type that an [`Elem`] stands for.
pub open spec fn elem_ty(e: Elem) -> Ty
    decreases e,
{
    match e {
        Elem::Int => Ty::Int,
        Elem::Bool => Ty::Bool,
        Elem::Float => Ty::Float,
        Elem::Str => Ty::Str,
        Elem::Struct(n) => Ty::Struct(n@),
        Elem::Enum(n) => Ty::Enum(n@),
        Elem::Array(e) => Ty::Array(Box::new(elem_ty(*e))),
        Elem::MapOf(v) => Ty::MapOf(Box::new(elem_ty(*v))),
    }
}

impl View for Elem {
    type V = Ty;

    open spec fn view(&self) -> Ty {
        elem_ty(*self)
    }
}

impl View for Type {
    type V = Ty;

    open spec fn view(&self) -> Ty {
        match self {
            Type::Int => Ty::Int,
            Type::Bool => Ty::Bool,
            Type::Float => Ty::Float,
            Type::Str => Ty::Str,
            Type::Array(e) => Ty::Array(Box::new(e@)),
            Type::Struct(n) => Ty::Struct(n@),
            Type::Enum(n) => Ty::Enum(n@),
            Type::MapOf(v) => Ty::MapOf(Box::new(v@)),
            Type::Null => Ty::Null,
        }
    }
}

/// How a type is written in messages.
pub open spec fn ty_name(t: Ty) -> Seq<char>
    decreases t,
{
    match t {
        Ty::Int => "int"@,
        Ty::Bool => "bool"@,
        Ty::Float => "float"@,
        Ty::Str => "string"@,
        Ty::Array(e) => "["@ + ty_name(*e) + "]"@,
        Ty::Struct(n) => n,
        Ty::Enum(n) => n,
        Ty::MapOf(v) => "{string: "@ + ty_name(*v) + "}"@,
        Ty::Null => "null"@,
    }
}

/// A type on which arithmetic is defined.
pub open spec fn ty_is_numeric(t: Ty) -> bool {
    t is Int || t is Float
}

/// A type whose values are pointers to the heap, to which `null` can be assigned.
pub open spec fn ty_is_reference(t: Ty) -> bool {
    t is Str || t is Array || t is Struct || t is Enum || t is MapOf
}

impl Elem {
    /// The type as it is written in messages.
    pub fn name(self) -> (r: String)
        ensures
            r@ == ty_name(self@),
        decreases self,
    {
        match self {
            Elem::Int => "int".to_string(),
            Elem::Bool => "bool".to_string(),
            Elem::Float => "float".to_string(),
            Elem::Str => "string".to_string(),
            Elem::Struct(n) => n.to_string(),
            Elem::Enum(n) => n.to_string(),
            Elem::Array(e) => {
                let inner = e.name();
                "[".to_string().concat(inner.as_str()).concat("]")
            },
            Elem::MapOf(v) => {
                let inner = v.name();
                "{string: ".to_string().concat(inner.as_str()).concat("}")
            },
        }
    }

    /// The same type, as the type of a value.
    pub fn to_type(self) -> (r: Type)
        ensures
            r@ == self@,
    {
        match self {
            Elem::Int => Type::Int,
            Elem::Bool => Type::Bool,
            Elem::Float => Type::Float,
            Elem::Str => Type::Str,
            Elem::Struct(n) => Type::Struct(n),
            Elem::Enum(n) => Type::Enum(n),
            Elem::Array(e) => Type::Array(*e),
            Elem::MapOf(v) => Type::MapOf(*v),
        }
    }

    /// Whether the two are the same type.
    pub fn same(self, other: Elem) -> (r: bool)
        ensures
            r == (self@ == other@),
        decreases self,
    {
        match (self, other) {
            (Elem::Int, Elem::Int) => true,
            (Elem::Bool, Elem::Bool) => true,
            (Elem::Float, Elem::Float) => true,
            (Elem::Str, Elem::Str) => true,
            (Elem::Struct(a), Elem::Struct(b)) => text_eq(a, b),
            (Elem::Enum(a), Elem::Enum(b)) => text_eq(a, b),
            (Elem::Array(a), Elem::Array(b)) => a.same(*b),
            (Elem::MapOf(a), Elem::MapOf(b)) => a.same(*b),
            _ => false,
        }
    }
}

impl Type {
    /// The type as it is written in messages.
    pub fn name(self) -> (r: String)
        ensures
            r@ == ty_name(self@),
    {
        match self {
            Type::Int => "int".to_string(),
            Type::Bool => "bool".to_string(),
            Type::Float => "float".to_string(),
            Type::Str => "string".to_string(),
            Type::Array(e) => {
                let inner = e.name();
                "[".to_string().concat(inner.as_str()).concat("]")
            },
            Type::Struct(n) => n.to_string(),
            Type::Enum(n) => n.to_string(),
            Type::MapOf(v) => {
                let inner = v.name();
                "{string: ".to_string().concat(inner.as_str()).concat("}")
            },
            Type::Null => "null".to_string(),
        }
    }

    /// Whether arithmetic is defined on the type.
    pub fn is_numeric(self) -> (r: bool)
        ensures
            r == ty_is_numeric(self@),
    {
        matches!(self, Type::Int | Type::Float)
    }

    /// Whether values of the type are pointers to the heap, so that `null` fits it.
    pub fn is_reference(self) -> (r: bool)
        ensures
            r == ty_is_reference(self@),
    {
        matches!(
            self,
            Type::Str | Type::Array(_) | Type::Struct(_) | Type::Enum(_) | Type::MapOf(_)
        )
    }

    /// The same type, as the element type of an array or the value type of a map. `null`
    /// alone does not say which type is meant, and is no element type.
    pub fn as_elem(self) -> (r: Option<Elem>)
        ensures
            r is None <==> self@ is Null,
            r matches Some(e) ==> e@ == self@,
    {
        match self {
            Type::Int => Some(Elem::Int),
            Type::Bool => Some(Elem::Bool),
            Type::Float => Some(Elem::Float),
            Type::Str => Some(Elem::Str),
            Type::Struct(n) => Some(Elem::Struct(n)),
            Type::Enum(n) => Some(Elem::Enum(n)),
            Type::Array(e) => Some(Elem::Array(intern_elem(e))),
            Type::MapOf(v) => Some(Elem::MapOf(intern_elem(v))),
            Type::Null => None,
        }
    }

    /// Whether the two are the same type.
    pub fn same(self, other: Type) -> (r: bool)
        ensures
            r == (self@ == other@),
    {
        match (self, other) {
            (Type::Int, Type::Int) => true,
            (Type::Bool, Type::Bool) => true,
            (Type::Float, Type::Float) => true,
            (Type::Str, Type::Str) => true,
            (Type::Struct(a), Type::Struct(b)) => text_eq(a, b),
            (Type::Enum(a), Type::Enum(b)) => text_eq(a, b),
            (Type::Array(a), Type::Array(b)) => a.same(b),
            (Type::MapOf(a), Type::MapOf(b)) => a.same(b),
            (Type::Null, Type::Null) => true,
            _ => false,
        }
    }
}

/// A text that lives as long as the program. Compilers are short-lived, so leaking is enough.
pub fn intern(s: &str) -> (r: &'static str)
    ensures
        r@ == s@,
{
    leak_text(s.to_string())
}

/// An element type that lives as long as the program.
pub fn intern_elem(e: Elem) -> (r: &'static Elem)
    ensures
        *r == e,
{
    leak_elem(Box::new(e))
}

/// `String::leak`: hands out the text of a string as a slice that is never freed, with the
/// same characters.
#[verifier::external_body]
fn leak_text(s: String) -> (r: &'static str)
    ensures
        r@ == s@,
{
    s.leak()
}

/// `Box::leak`: hands out the value in a box by a reference that is never freed.
#[verifier::external_body]
fn leak_elem(e: Box<Elem>) -> (r: &'static Elem)
    ensures
        *r == *e,
{
    Box::leak(e)
}

/// No element type is `null`.
pub proof fn elem_is_never_null(e: Elem)
    ensures
        !(e@ is Null),
{
}

/// Every type but `null` is numeric, boolean or a reference type, and only one of these.
pub proof fn types_are_partitioned(t: Ty)
    requires
        !(t is Null),
    ensures
        ty_is_numeric(t) || t is Bool || ty_is_reference(t),
        !(ty_is_numeric(t) && ty_is_reference(t)),
        t is Bool ==> !ty_is_numeric(t) && !ty_is_reference(t),
{
}

} // verus!
