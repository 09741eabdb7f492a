//! The built-in functions.
use crate::text::text_eq;
use vstd::prelude::*;

verus! {

/// A built-in function.
#[derive(Debug, Clone, Copy, PartialEq, Eq, Structural)]
pub enum Builtin {
    Int,
    Float,
    Len,
    Str,
    Chr,
    ReadLine,
    Push,
    Pop,
    Sorted,
    Reversed,
    Sqrt,
    Pow,
    Abs,
    Min,
    Max,
    Floor,
    Ceil,
    Has,
    Keys,
    Delete,
    Substr,
    Split,
    Join,
    IsInt,
    IsFloat,
    ReadFile,
    WriteFile,
    ToUpper,
    ToLower,
    Trim,
    Find,
    Contains,
    Replace,
    Repeat,
    StartsWith,
    EndsWith,
}

/// The built-in function of this name.
pub open spec fn builtin_named(name: Seq<char>) -> Option<Builtin> {
    if name == "int"@ {
        Some(Builtin::Int)
    } else if name == "float"@ {
        Some(Builtin::Float)
    } else if name == "len"@ {
        Some(Builtin::Len)
    } else if name == "str"@ {
        Some(Builtin::Str)
    } else if name == "chr"@ {
        Some(Builtin::Chr)
    } else if name == "read_line"@ {
        Some(Builtin::ReadLine)
    } else if name == "push"@ {
        Some(Builtin::Push)
    } else if name == "pop"@ {
        Some(Builtin::Pop)
    } else if name == "sorted"@ {
        Some(Builtin::Sorted)
    } else if name == "reversed"@ {
        Some(Builtin::Reversed)
    } else if name == "sqrt"@ {
        Some(Builtin::Sqrt)
    } else if name == "pow"@ {
        Some(Builtin::Pow)
    } else if name == "abs"@ {
        Some(Builtin::Abs)
    } else if name == "min"@ {
        Some(Builtin::Min)
    } else if name == "max"@ {
        Some(Builtin::Max)
    } else if name == "floor"@ {
        Some(Builtin::Floor)
    } else if name == "ceil"@ {
        Some(Builtin::Ceil)
    } else if name == "has"@ {
        Some(Builtin::Has)
    } else if name == "keys"@ {
        Some(Builtin::Keys)
    } else if name == "delete"@ {
        Some(Builtin::Delete)
    } else if name == "substr"@ {
        Some(Builtin::Substr)
    } else if name == "split"@ {
        Some(Builtin::Split)
    } else if name == "join"@ {
        Some(Builtin::Join)
    } else if name == "is_int"@ {
        Some(Builtin::IsInt)
    } else if name == "is_float"@ {
        Some(Builtin::IsFloat)
    } else if name == "read_file"@ {
        Some(Builtin::ReadFile)
    } else if name == "write_file"@ {
        Some(Builtin::WriteFile)
    } else if name == "to_upper"@ {
        Some(Builtin::ToUpper)
    } else if name == "to_lower"@ {
        Some(Builtin::ToLower)
    } else if name == "trim"@ {
        Some(Builtin::Trim)
    } else if name == "find"@ {
        Some(Builtin::Find)
    } else if name == "contains"@ {
        Some(Builtin::Contains)
    } else if name == "replace"@ {
        Some(Builtin::Replace)
    } else if name == "repeat"@ {
        Some(Builtin::Repeat)
    } else if name == "starts_with"@ {
        Some(Builtin::StartsWith)
    } else if name == "ends_with"@ {
        Some(Builtin::EndsWith)
    } else {
        None
    }
}

/// The built-in function of this name.
pub fn builtin_of(name: &str) -> (r: Option<Builtin>)
    ensures
        r == builtin_named(name@),
{
    if text_eq(name, "int") {
        Some(Builtin::Int)
    } else if text_eq(name, "float") {
        Some(Builtin::Float)
    } else if text_eq(name, "len") {
        Some(Builtin::Len)
    } else if text_eq(name, "str") {
        Some(Builtin::Str)
    } else if text_eq(name, "chr") {
        Some(Builtin::Chr)
    } else if text_eq(name, "read_line") {
        Some(Builtin::ReadLine)
    } else if text_eq(name, "push") {
        Some(Builtin::Push)
    } else if text_eq(name, "pop") {
        Some(Builtin::Pop)
    } else if text_eq(name, "sorted") {
        Some(Builtin::Sorted)
    } else if text_eq(name, "reversed") {
        Some(Builtin::Reversed)
    } else if text_eq(name, "sqrt") {
        Some(Builtin::Sqrt)
    } else if text_eq(name, "pow") {
        Some(Builtin::Pow)
    } else if text_eq(name, "abs") {
        Some(Builtin::Abs)
    } else if text_eq(name, "min") {
        Some(Builtin::Min)
    } else if text_eq(name, "max") {
        Some(Builtin::Max)
    } else if text_eq(name, "floor") {
        Some(Builtin::Floor)
    } else if text_eq(name, "ceil") {
        Some(Builtin::Ceil)
    } else if text_eq(name, "has") {
        Some(Builtin::Has)
    } else if text_eq(name, "keys") {
        Some(Builtin::Keys)
    } else if text_eq(name, "delete") {
        Some(Builtin::Delete)
    } else if text_eq(name, "substr") {
        Some(Builtin::Substr)
    } else if text_eq(name, "split") {
        Some(Builtin::Split)
    } else if text_eq(name, "join") {
        Some(Builtin::Join)
    } else if text_eq(name, "is_int") {
        Some(Builtin::IsInt)
    } else if text_eq(name, "is_float") {
        Some(Builtin::IsFloat)
    } else if text_eq(name, "read_file") {
        Some(Builtin::ReadFile)
    } else if text_eq(name, "write_file") {
        Some(Builtin::WriteFile)
    } else if text_eq(name, "to_upper") {
        Some(Builtin::ToUpper)
    } else if text_eq(name, "to_lower") {
        Some(Builtin::ToLower)
    } else if text_eq(name, "trim") {
        Some(Builtin::Trim)
    } else if text_eq(name, "find") {
        Some(Builtin::Find)
    } else if text_eq(name, "contains") {
        Some(Builtin::Contains)
    } else if text_eq(name, "replace") {
        Some(Builtin::Replace)
    } else if text_eq(name, "repeat") {
        Some(Builtin::Repeat)
    } else if text_eq(name, "starts_with") {
        Some(Builtin::StartsWith)
    } else if text_eq(name, "ends_with") {
        Some(Builtin::EndsWith)
    } else {
        None
    }
}

} // verus!
