//! The names of the built-in functions.
use crate::builtins::Builtin;
use vstd::prelude::*;
#[allow(unused_imports)]
use crate::builtins::builtin_named;

verus! {

/// How a built-in function is called.
pub open spec fn builtin_spelling(b: Builtin) -> Seq<char> {
    match b {
        Builtin::Int => "int"@,
        Builtin::Float => "float"@,
        Builtin::Len => "len"@,
        Builtin::Str => "str"@,
        Builtin::Chr => "chr"@,
        Builtin::ReadLine => "read_line"@,
        Builtin::Push => "push"@,
        Builtin::Pop => "pop"@,
        Builtin::Sorted => "sorted"@,
        Builtin::Reversed => "reversed"@,
        Builtin::Sqrt => "sqrt"@,
        Builtin::Pow => "pow"@,
        Builtin::Abs => "abs"@,
        Builtin::Min => "min"@,
        Builtin::Max => "max"@,
        Builtin::Floor => "floor"@,
        Builtin::Ceil => "ceil"@,
        Builtin::Has => "has"@,
        Builtin::Keys => "keys"@,
        Builtin::Delete => "delete"@,
        Builtin::Substr => "substr"@,
        Builtin::Split => "split"@,
        Builtin::Join => "join"@,
        Builtin::IsInt => "is_int"@,
        Builtin::IsFloat => "is_float"@,
        Builtin::ReadFile => "read_file"@,
        Builtin::WriteFile => "write_file"@,
        Builtin::ToUpper => "to_upper"@,
        Builtin::ToLower => "to_lower"@,
        Builtin::Trim => "trim"@,
        Builtin::Find => "find"@,
        Builtin::Contains => "contains"@,
        Builtin::Replace => "replace"@,
        Builtin::Repeat => "repeat"@,
        Builtin::StartsWith => "starts_with"@,
        Builtin::EndsWith => "ends_with"@,
    }
}

proof fn lemma_spelled(b: Builtin)
    ensures
        builtin_named(builtin_spelling(b)) == Some(b),
{
    reveal_strlit("int");
    reveal_strlit("float");
    reveal_strlit("len");
    reveal_strlit("str");
    reveal_strlit("chr");
    reveal_strlit("read_line");
    reveal_strlit("push");
    reveal_strlit("pop");
    reveal_strlit("sorted");
    reveal_strlit("reversed");
    reveal_strlit("sqrt");
    reveal_strlit("pow");
    reveal_strlit("abs");
    reveal_strlit("min");
    reveal_strlit("max");
    reveal_strlit("floor");
    reveal_strlit("ceil");
    reveal_strlit("has");
    reveal_strlit("keys");
    reveal_strlit("delete");
    reveal_strlit("substr");
    reveal_strlit("split");
    reveal_strlit("join");
    reveal_strlit("is_int");
    reveal_strlit("is_float");
    reveal_strlit("read_file");
    reveal_strlit("write_file");
    reveal_strlit("to_upper");
    reveal_strlit("to_lower");
    reveal_strlit("trim");
    reveal_strlit("find");
    reveal_strlit("contains");
    reveal_strlit("replace");
    reveal_strlit("repeat");
    reveal_strlit("starts_with");
    reveal_strlit("ends_with");
    assert("int"@[0] == 'i');
    assert("int"@[2] == 't');
    assert("len"@[0] == 'l');
    assert("len"@[2] == 'n');
    assert("str"@[0] == 's');
    assert("str"@[2] == 'r');
    assert("chr"@[0] == 'c');
    assert("chr"@[2] == 'r');
    assert("pop"@[0] == 'p');
    assert("pop"@[2] == 'p');
    assert("pow"@[0] == 'p');
    assert("pow"@[2] == 'w');
    assert("abs"@[0] == 'a');
    assert("abs"@[2] == 's');
    assert("min"@[0] == 'm');
    assert("min"@[2] == 'n');
    assert("max"@[0] == 'm');
    assert("max"@[2] == 'x');
    assert("has"@[0] == 'h');
    assert("has"@[2] == 's');
    assert("push"@[0] == 'p');
    assert("sqrt"@[0] == 's');
    assert("ceil"@[0] == 'c');
    assert("keys"@[0] == 'k');
    assert("join"@[0] == 'j');
    assert("trim"@[0] == 't');
    assert("find"@[0] == 'f');
    assert("float"@[3] == 'a');
    assert("floor"@[3] == 'o');
    assert("split"@[3] == 'i');
    assert("sorted"@[2] == 'r');
    assert("delete"@[2] == 'l');
    assert("substr"@[2] == 'b');
    assert("is_int"@[2] == '_');
    assert("repeat"@[2] == 'p');
    assert("reversed"@[3] == 'e');
    assert("is_float"@[3] == 'f');
    assert("to_upper"@[3] == 'u');
    assert("to_lower"@[3] == 'l');
    assert("contains"@[3] == 't');
    assert("read_line"@[5] == 'l');
    assert("read_file"@[5] == 'f');
    assert("ends_with"@[5] == 'w');
    assert("int"@.len() == 3);
    assert("float"@.len() == 5);
    assert("len"@.len() == 3);
    assert("str"@.len() == 3);
    assert("chr"@.len() == 3);
    assert("read_line"@.len() == 9);
    assert("push"@.len() == 4);
    assert("pop"@.len() == 3);
    assert("sorted"@.len() == 6);
    assert("reversed"@.len() == 8);
    assert("sqrt"@.len() == 4);
    assert("pow"@.len() == 3);
    assert("abs"@.len() == 3);
    assert("min"@.len() == 3);
    assert("max"@.len() == 3);
    assert("floor"@.len() == 5);
    assert("ceil"@.len() == 4);
    assert("has"@.len() == 3);
    assert("keys"@.len() == 4);
    assert("delete"@.len() == 6);
    assert("substr"@.len() == 6);
    assert("split"@.len() == 5);
    assert("join"@.len() == 4);
    assert("is_int"@.len() == 6);
    assert("is_float"@.len() == 8);
    assert("read_file"@.len() == 9);
    assert("write_file"@.len() == 10);
    assert("to_upper"@.len() == 8);
    assert("to_lower"@.len() == 8);
    assert("trim"@.len() == 4);
    assert("find"@.len() == 4);
    assert("contains"@.len() == 8);
    assert("replace"@.len() == 7);
    assert("repeat"@.len() == 6);
    assert("starts_with"@.len() == 11);
    assert("ends_with"@.len() == 9);
}

/// Every built-in function has its name, and no other name is that of a built-in function.
pub proof fn built_in_functions_have_their_names(name: Seq<char>, b: Builtin)
    ensures
        builtin_named(name) == Some(b) <==> name == builtin_spelling(b),
{
    lemma_spelled(b);
}

} // verus!
