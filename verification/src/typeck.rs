//! The type checker: runs after parsing and before code generation.
//!
//! It resolves names and checks types, and answers with the first error. What it accepts is
//! what [`crate::typing`] says. A program that it accepts can be lowered without a further
//! look at types.
use crate::ast::{
    BinOp, EnumDef, EnumVariant, Expr, ExprKind, FieldInit, Function, MatchArm, Param, Program,
    Stmt, StmtKind, StructDef, UnOp,
};
use crate::builtins::{builtin_of, Builtin};
use crate::diagnostics::Diagnostic;
use crate::span::Span;
use crate::text::{append_dec, text_eq};
use crate::types::{intern, intern_elem, Elem, Type};
use vstd::prelude::*;
#[allow(unused_imports)]
use crate::ast::{
    arm_view, arms_view, enum_view, expr_view, exprs_view, function_view, init_view, inits_view,
    names_view, opt_expr_view, opt_stmt_view, opt_ty_view, pair_view, pairs_view, param_view,
    params_view, program_view, stmt_view, stmts_view, struct_view, types_view, variant_view,
    variants_view, EnumDefV, EnumVariantV, ExprKindV, ExprV, FieldInitV, FunctionV, MatchArmV,
    ParamV, ProgramV, StmtKindV, StmtV, StructDefV,
};
#[allow(unused_imports)]
use crate::builtins::builtin_named;
#[allow(unused_imports)]
use crate::diagnostics::{diag, DiagV};
#[allow(unused_imports)]
use crate::text::dec_text;
#[allow(unused_imports)]
use crate::types::{elem_ty, ty_is_numeric, ty_is_reference, ty_name, Ty};
#[allow(unused_imports)]
use crate::typing;
#[allow(unused_imports)]
use crate::typing::{
    enum_index, enum_named, fits, fixed_sig, func_index, func_named, generic_arity, is_reserved,
    param_index, resolve, resolve_all, struct_index, struct_named, unknown_name, variant_home,
    variant_index, variant_named, Place, Settled,
};

verus! {

/// The answer of a check that can fail is the one that the rules give.
pub open spec fn agrees<T>(r: Result<T, Diagnostic>, want: Result<T, DiagV>) -> bool {
    match r {
        Ok(x) => want == Ok::<T, DiagV>(x),
        Err(d) => want == Err::<T, DiagV>(d@),
    }
}

/// The same for a type.
pub open spec fn type_agrees(r: Result<Type, Diagnostic>, want: Result<Ty, DiagV>) -> bool {
    match r {
        Ok(t) => want == Ok::<Ty, DiagV>(t@),
        Err(d) => want == Err::<Ty, DiagV>(d@),
    }
}

/// What a row of variables stands for.
pub open spec fn env_view(v: Seq<(String, Type)>) -> Seq<(Seq<char>, Ty)> {
    Seq::new(v.len(), |i: int| (v[i].0@, v[i].1@))
}

fn decimal(n: usize) -> (r: String)
    ensures
        r@ == dec_text(n as nat),
{
    let mut out = String::new();
    append_dec(&mut out, n as u64);
    assert(out@ =~= dec_text(n as nat));
    out
}

// Names.

pub(crate) fn find_struct(p: &Program, name: &str) -> (r: usize)
    ensures
        r == struct_index(p@, name@, 0),
        r <= p.structs@.len(),
{
    let mut i: usize = 0;
    while i < p.structs.len() && !text_eq(p.structs[i].name.as_str(), name)
        invariant
            0 <= i <= p.structs@.len(),
            struct_index(p@, name@, 0) == struct_index(p@, name@, i as int),
        decreases p.structs@.len() - i,
    {
        i += 1;
    }
    i
}

pub(crate) fn find_enum(p: &Program, name: &str) -> (r: usize)
    ensures
        r == enum_index(p@, name@, 0),
        r <= p.enums@.len(),
{
    let mut i: usize = 0;
    while i < p.enums.len() && !text_eq(p.enums[i].name.as_str(), name)
        invariant
            0 <= i <= p.enums@.len(),
            enum_index(p@, name@, 0) == enum_index(p@, name@, i as int),
        decreases p.enums@.len() - i,
    {
        i += 1;
    }
    i
}

pub(crate) fn find_variant(vs: &Vec<EnumVariant>, name: &str) -> (r: usize)
    ensures
        r == variant_index(variants_view(vs@), name@, 0),
        r <= vs@.len(),
{
    let mut i: usize = 0;
    while i < vs.len() && !text_eq(vs[i].name.as_str(), name)
        invariant
            0 <= i <= vs@.len(),
            variant_index(variants_view(vs@), name@, 0) == variant_index(
                variants_view(vs@),
                name@,
                i as int,
            ),
        decreases vs@.len() - i,
    {
        i += 1;
    }
    i
}

pub(crate) fn find_home(p: &Program, name: &str) -> (r: usize)
    ensures
        r == variant_home(p@, name@, 0),
        r <= p.enums@.len(),
        r < p.enums@.len() ==> variant_index(p@.enums[r as int].variants, name@, 0)
            < p@.enums[r as int].variants.len(),
{
    let mut i: usize = 0;
    while i < p.enums.len()
        invariant
            0 <= i <= p.enums@.len(),
            variant_home(p@, name@, 0) == variant_home(p@, name@, i as int),
        decreases p.enums@.len() - i,
    {
        let k: usize = find_variant(&p.enums[i].variants, name);
        assert(p@.enums[i as int] == enum_view(p.enums@[i as int]));
        if k < p.enums[i].variants.len() {
            return i;
        }
        i += 1;
    }
    i
}

pub(crate) fn find_func(p: &Program, name: &str) -> (r: usize)
    ensures
        r == func_index(p@, name@, 0),
        r <= p.funcs@.len(),
{
    let mut i: usize = 0;
    while i < p.funcs.len() && !text_eq(p.funcs[i].name.as_str(), name)
        invariant
            0 <= i <= p.funcs@.len(),
            func_index(p@, name@, 0) == func_index(p@, name@, i as int),
        decreases p.funcs@.len() - i,
    {
        i += 1;
    }
    i
}

pub(crate) fn find_param(ps: &Vec<Param>, name: &str) -> (r: usize)
    ensures
        r == param_index(params_view(ps@), name@, 0),
        r <= ps@.len(),
{
    let mut i: usize = 0;
    while i < ps.len() && !text_eq(ps[i].name.as_str(), name)
        invariant
            0 <= i <= ps@.len(),
            param_index(params_view(ps@), name@, 0) == param_index(
                params_view(ps@),
                name@,
                i as int,
            ),
        decreases ps@.len() - i,
    {
        i += 1;
    }
    i
}

/// The type of the innermost variable of this name.
pub(crate) fn lookup(env: &Vec<(String, Type)>, name: &str) -> (r: Option<Type>)
    ensures
        match r {
            Some(t) => typing::lookup(env_view(env@), name@) == Some(t@),
            None => typing::lookup(env_view(env@), name@) is None,
        },
{
    let mut i: usize = env.len();
    let ghost all = env_view(env@);
    assert(all.take(i as int) =~= all);
    while i > 0
        invariant
            0 <= i <= env@.len(),
            all == env_view(env@),
            typing::lookup(all, name@) == typing::lookup(all.take(i as int), name@),
        decreases i,
    {
        assert(all.take(i as int).drop_last() =~= all.take(i - 1));
        assert(all.take(i as int).last() == all[i - 1]);
        if text_eq(env[i - 1].0.as_str(), name) {
            return Some(env[i - 1].1);
        }
        i -= 1;
    }
    None
}

// Types.

pub(crate) fn resolve_elem(p: &Program, e: Elem) -> (r: Elem)
    ensures
        r@ == resolve(p@, e@),
    decreases e,
{
    match e {
        Elem::Struct(n) => if find_struct(p, n) >= p.structs.len() && find_enum(p, n)
            < p.enums.len() {
            Elem::Enum(n)
        } else {
            e
        },
        Elem::Array(x) => Elem::Array(intern_elem(resolve_elem(p, *x))),
        Elem::MapOf(x) => Elem::MapOf(intern_elem(resolve_elem(p, *x))),
        _ => e,
    }
}

/// The type that an annotation means.
pub(crate) fn resolve_type(p: &Program, t: Type) -> (r: Type)
    ensures
        r@ == resolve(p@, t@),
{
    match t {
        Type::Struct(n) => if find_struct(p, n) >= p.structs.len() && find_enum(p, n)
            < p.enums.len() {
            Type::Enum(n)
        } else {
            t
        },
        Type::Array(x) => Type::Array(resolve_elem(p, x)),
        Type::MapOf(x) => Type::MapOf(resolve_elem(p, x)),
        _ => t,
    }
}

fn unknown_in_elem(p: &Program, e: Elem) -> (r: Option<&'static str>)
    ensures
        match r {
            Some(n) => unknown_name(p@, e@) == Some(n@),
            None => unknown_name(p@, e@) is None,
        },
    decreases e,
{
    match e {
        Elem::Struct(n) => if find_struct(p, n) < p.structs.len() || find_enum(p, n)
            < p.enums.len() {
            None
        } else {
            Some(n)
        },
        Elem::Enum(n) => if find_enum(p, n) < p.enums.len() {
            None
        } else {
            Some(n)
        },
        Elem::Array(x) => unknown_in_elem(p, *x),
        Elem::MapOf(x) => unknown_in_elem(p, *x),
        _ => None,
    }
}

/// Checks that every name in the type has a definition.
fn validate_type(p: &Program, t: Type, span: Span) -> (r: Result<(), Diagnostic>)
    ensures
        agrees(r, typing::valid_type(p@, t@, span)),
{
    let unknown = match t {
        Type::Struct(n) => unknown_in_elem(p, Elem::Struct(n)),
        Type::Enum(n) => unknown_in_elem(p, Elem::Enum(n)),
        Type::Array(x) => unknown_in_elem(p, x),
        Type::MapOf(x) => unknown_in_elem(p, x),
        _ => None,
    };
    match unknown {
        Some(n) => Err(
            Diagnostic::coded("E0300", "不明な型: ".to_string().concat(n), span),
        ),
        None => Ok(()),
    }
}

fn fits_type(want: Type, got: Type) -> (r: bool)
    ensures
        r == fits(want@, got@),
{
    want.same(got) || (matches!(got, Type::Null) && want.is_reference())
}

fn expect(want: Type, got: Type, span: Span) -> (r: Result<(), Diagnostic>)
    ensures
        agrees(r, typing::expect(want@, got@, span)),
{
    if fits_type(want, got) {
        Ok(())
    } else {
        let w = want.name();
        let g = got.name();
        let message = "型が合いません: ".to_string().concat(w.as_str()).concat(
            " が必要ですが ",
        ).concat(g.as_str()).concat(" が渡されました");
        Err(Diagnostic::coded("E0200", message, span))
    }
}

fn numeric_required(got: Type, span: Span) -> (r: Diagnostic)
    ensures
        r@ == typing::numeric_required(got@, span),
{
    let g = got.name();
    let message = "数値(int または float)が必要ですが ".to_string().concat(g.as_str()).concat(
        " が使われています",
    );
    Diagnostic::coded("E0200", message, span)
}

fn both(want: Type, lt: Type, rt: Type, ls: Span, rs: Span) -> (r: Result<(), Diagnostic>)
    ensures
        agrees(r, typing::both(want@, lt@, rt@, ls, rs)),
{
    expect(want, lt, ls)?;
    expect(want, rt, rs)
}

fn both_numeric(lt: Type, rt: Type, ls: Span, rs: Span) -> (r: Result<(), Diagnostic>)
    ensures
        agrees(r, typing::both_numeric(lt@, rt@, ls, rs)),
{
    if lt.is_numeric() {
        expect(lt, rt, rs)
    } else {
        Err(numeric_required(lt, ls))
    }
}

fn order_type(lt: Type, rt: Type, ls: Span, rs: Span) -> (r: Result<Type, Diagnostic>)
    ensures
        type_agrees(r, typing::order_type(lt@, rt@, ls, rs)),
{
    if matches!(lt, Type::Str) {
        expect(Type::Str, rt, rs)?;
    } else {
        both_numeric(lt, rt, ls, rs)?;
    }
    Ok(Type::Bool)
}

fn equality_type(lt: Type, rt: Type, ls: Span, rs: Span, span: Span) -> (r: Result<
    Type,
    Diagnostic,
>)
    ensures
        type_agrees(r, typing::equality_type(lt@, rt@, ls, rs, span)),
{
    if matches!(lt, Type::Null) || matches!(rt, Type::Null) {
        let other = if matches!(lt, Type::Null) {
            rt
        } else {
            lt
        };
        if matches!(other, Type::Null) || other.is_reference() {
            Ok(Type::Bool)
        } else {
            let shown = other.name();
            let message = "null と比較できるのは参照型(string/array/struct)だけですが ".to_string(
            ).concat(shown.as_str()).concat(" が使われています");
            Err(Diagnostic::coded("E0200", message, span))
        }
    } else {
        order_type(lt, rt, ls, rs)
    }
}

fn binary_type(op: BinOp, lt: Type, rt: Type, ls: Span, rs: Span, span: Span) -> (r: Result<
    Type,
    Diagnostic,
>)
    ensures
        type_agrees(r, typing::binary_type(op, lt@, rt@, ls, rs, span)),
{
    match op {
        BinOp::Add => {
            if matches!(lt, Type::Str) {
                expect(Type::Str, rt, rs)?;
                Ok(Type::Str)
            } else {
                both_numeric(lt, rt, ls, rs)?;
                Ok(lt)
            }
        },
        BinOp::Sub | BinOp::Mul | BinOp::Div => {
            both_numeric(lt, rt, ls, rs)?;
            Ok(lt)
        },
        BinOp::Mod | BinOp::BitAnd | BinOp::BitOr | BinOp::BitXor | BinOp::Shl | BinOp::Shr => {
            both(Type::Int, lt, rt, ls, rs)?;
            Ok(Type::Int)
        },
        BinOp::Eq | BinOp::Ne => equality_type(lt, rt, ls, rs, span),
        BinOp::Lt | BinOp::Le | BinOp::Gt | BinOp::Ge => order_type(lt, rt, ls, rs),
        BinOp::And | BinOp::Or => {
            both(Type::Bool, lt, rt, ls, rs)?;
            Ok(Type::Bool)
        },
    }
}

fn unary_type(op: UnOp, t: Type, span: Span) -> (r: Result<Type, Diagnostic>)
    ensures
        type_agrees(r, typing::unary_type(op, t@, span)),
{
    match op {
        UnOp::Neg => if t.is_numeric() {
            Ok(t)
        } else {
            Err(numeric_required(t, span))
        },
        UnOp::Not => {
            expect(Type::Bool, t, span)?;
            Ok(Type::Bool)
        },
        UnOp::BitNot => {
            expect(Type::Int, t, span)?;
            Ok(Type::Int)
        },
    }
}

// Built-in functions.

fn types0() -> (r: Vec<Type>)
    ensures
        types_view(r@) == Seq::<Ty>::empty(),
{
    let r: Vec<Type> = Vec::new();
    assert(types_view(r@) =~= Seq::<Ty>::empty());
    r
}

fn types1(a: Type) -> (r: Vec<Type>)
    ensures
        types_view(r@) == seq![a@],
{
    let mut r: Vec<Type> = Vec::new();
    r.push(a);
    assert(types_view(r@) =~= seq![a@]);
    r
}

fn types2(a: Type, b: Type) -> (r: Vec<Type>)
    ensures
        types_view(r@) == seq![a@, b@],
{
    let mut r: Vec<Type> = Vec::new();
    r.push(a);
    r.push(b);
    assert(types_view(r@) =~= seq![a@, b@]);
    r
}

fn types3(a: Type, b: Type, c: Type) -> (r: Vec<Type>)
    ensures
        types_view(r@) == seq![a@, b@, c@],
{
    let mut r: Vec<Type> = Vec::new();
    r.push(a);
    r.push(b);
    r.push(c);
    assert(types_view(r@) =~= seq![a@, b@, c@]);
    r
}

/// The parameters and the result of a built-in function that has one type only.
pub(crate) fn fixed_sig_of(b: Builtin) -> (r: Option<(Vec<Type>, Type)>)
    ensures
        match r {
            Some((params, ret)) => fixed_sig(b) == Some((types_view(params@), ret@)),
            None => fixed_sig(b) is None,
        },
{
    let s = Type::Str;
    let f = Type::Float;
    let strings = Type::Array(Elem::Str);
    if matches!(b, Builtin::ReadLine) {
        Some((types0(), s))
    } else if matches!(b, Builtin::Chr) {
        Some((types1(Type::Int), s))
    } else if matches!(b, Builtin::Sqrt) || matches!(b, Builtin::Floor) || matches!(b, Builtin::Ceil) {
        Some((types1(f), f))
    } else if matches!(b, Builtin::Pow) {
        Some((types2(f, f), f))
    } else if matches!(b, Builtin::IsInt) || matches!(b, Builtin::IsFloat) {
        Some((types1(s), Type::Bool))
    } else if matches!(b, Builtin::Substr) {
        Some((types3(s, Type::Int, Type::Int), s))
    } else if matches!(b, Builtin::Split) {
        Some((types2(s, s), strings))
    } else if matches!(b, Builtin::Join) {
        Some((types2(strings, s), s))
    } else if matches!(b, Builtin::ToUpper) || matches!(b, Builtin::ToLower) || matches!(b, Builtin::Trim)
        || matches!(b, Builtin::ReadFile) {
        Some((types1(s), s))
    } else if matches!(b, Builtin::Find) {
        Some((types2(s, s), Type::Int))
    } else if matches!(b, Builtin::Contains) || matches!(b, Builtin::StartsWith) || matches!(b, Builtin::EndsWith) || matches!(b, Builtin::WriteFile) {
        Some((types2(s, s), Type::Bool))
    } else if matches!(b, Builtin::Replace) {
        Some((types3(s, s, s), s))
    } else if matches!(b, Builtin::Repeat) {
        Some((types2(s, Type::Int), s))
    } else {
        None
    }
}

/// The number of arguments of a built-in function that works on several types.
pub(crate) fn generic_arity_of(b: Builtin) -> (r: usize)
    ensures
        r == generic_arity(b),
        1 <= r <= 2,
{
    match b {
        Builtin::Push | Builtin::Min | Builtin::Max | Builtin::Has | Builtin::Delete => 2,
        _ => 1,
    }
}

fn unsuited(name: &str, wants: &str, t: Type, span: Span) -> (r: Diagnostic)
    ensures
        r@ == typing::unsuited(name@, wants@, t@, span),
{
    let shown = t.name();
    let message = name.to_string().concat("() は").concat(wants).concat(shown.as_str()).concat(
        " が渡されました",
    );
    Diagnostic::coded("E0200", message, span)
}

/// What a first argument of type `t` settles: the type of the second and of the result.
fn generic_rule(b: Builtin, name: &str, t: Type, span: Span) -> (r: Result<
    (Type, Type),
    Diagnostic,
>)
    ensures
        match r {
            Ok((second, result)) => typing::generic_rule(b, name@, t@, span) == Ok::<Settled, DiagV>(
                Settled { second: second@, result: result@ },
            ),
            Err(d) => typing::generic_rule(b, name@, t@, span) == Err::<Settled, DiagV>(d@),
        },
{
    if matches!(b, Builtin::Int) || matches!(b, Builtin::Float) {
        if t.is_numeric() || matches!(t, Type::Str) {
            let result = if matches!(b, Builtin::Int) {
                Type::Int
            } else {
                Type::Float
            };
            Ok((Type::Null, result))
        } else {
            Err(unsuited(name, "数値(int または float)か string を変換しますが ", t, span))
        }
    } else if matches!(b, Builtin::Len) {
        if matches!(t, Type::Str | Type::Array(_) | Type::MapOf(_)) {
            Ok((Type::Null, Type::Int))
        } else {
            Err(unsuited(name, " string か配列か map に使えますが ", t, span))
        }
    } else if matches!(b, Builtin::Str) {
        if t.is_numeric() || matches!(t, Type::Bool | Type::Str) {
            Ok((Type::Null, Type::Str))
        } else {
            Err(unsuited(name, " int/float/bool/string を変換しますが ", t, span))
        }
    } else if matches!(b, Builtin::Abs) || matches!(b, Builtin::Min) || matches!(b, Builtin::Max) {
        if t.is_numeric() {
            Ok((t, t))
        } else {
            Err(numeric_required(t, span))
        }
    } else if matches!(b, Builtin::Push) || matches!(b, Builtin::Pop) || matches!(b, Builtin::Reversed)
        || matches!(b, Builtin::Sorted) {
        match t {
            Type::Array(e) => {
                let elem = e.to_type();
                if matches!(b, Builtin::Push) {
                    Ok((elem, t))
                } else if matches!(b, Builtin::Pop) {
                    Ok((Type::Null, elem))
                } else if matches!(b, Builtin::Reversed) || elem.is_numeric() || matches!(
                    elem,
                    Type::Str
                ) {
                    Ok((Type::Null, t))
                } else {
                    Err(unsuited(name, " int/float/string の配列に使えますが ", t, span))
                }
            },
            _ => Err(unsuited(name, "配列に使えますが ", t, span)),
        }
    } else {
        match t {
            Type::MapOf(_) => if matches!(b, Builtin::Has) {
                Ok((Type::Str, Type::Bool))
            } else if matches!(b, Builtin::Delete) {
                Ok((Type::Str, Type::Int))
            } else {
                Ok((Type::Null, Type::Array(Elem::Str)))
            },
            _ => Err(unsuited(name, " map に使えますが ", t, span)),
        }
    }
}

/// Whether the name is that of a type or a built-in function.
fn is_reserved_name(name: &str) -> (r: bool)
    ensures
        r == is_reserved(name@),
{
    text_eq(name, "int") || text_eq(name, "float") || text_eq(name, "bool") || text_eq(
        name,
        "string",
    ) || builtin_of(name).is_some()
}

fn builtin_arity_error(name: &str, wanted: usize, given: usize, span: Span) -> (r: Diagnostic)
    ensures
        r@ == typing::builtin_arity_error(name@, wanted as nat, given as nat, span),
{
    let g = decimal(given);
    let message = if wanted == 0 {
        name.to_string().concat("() は引数を取りませんが ").concat(g.as_str()).concat(
            " 個渡されました",
        )
    } else {
        let w = decimal(wanted);
        name.to_string().concat("() は引数").concat(w.as_str()).concat("個ですが ").concat(
            g.as_str(),
        ).concat(" 個渡されました")
    };
    Diagnostic::coded("E0104", message, span)
}

fn counted_error(
    what: &str,
    name: &str,
    takes: &str,
    wanted: usize,
    given: usize,
    span: Span,
) -> (r: Diagnostic)
    ensures
        r@ == diag(
            "E0104"@,
            what@ + name@ + takes@ + dec_text(wanted as nat) + " 個ですが "@ + dec_text(
                given as nat,
            ) + " 個渡されました"@,
            span,
        ),
{
    let w = decimal(wanted);
    let g = decimal(given);
    let message = what.to_string().concat(name).concat(takes).concat(w.as_str()).concat(
        " 個ですが ",
    ).concat(g.as_str()).concat(" 個渡されました");
    Diagnostic::coded("E0104", message, span)
}

fn no_field(name: &str, field: &str, span: Span) -> (r: Diagnostic)
    ensures
        r@ == typing::no_field(name@, field@, span),
{
    let message = "構造体 ".to_string().concat(name).concat(" にフィールド ").concat(field).concat(
        " はありません",
    );
    Diagnostic::coded("E0306", message, span)
}

fn index_type(at: Type, it: Type, array_span: Span, index_span: Span) -> (r: Result<
    Type,
    Diagnostic,
>)
    ensures
        type_agrees(r, typing::index_type(at@, it@, array_span, index_span)),
{
    match at {
        Type::MapOf(v) => {
            expect(Type::Str, it, index_span)?;
            Ok(v.to_type())
        },
        _ => {
            expect(Type::Int, it, index_span)?;
            match at {
                Type::Array(e) => Ok(e.to_type()),
                Type::Str => Ok(Type::Int),
                _ => {
                    let shown = at.name();
                    let message =
                        "添字でアクセスできるのは配列か文字列か map だけですが ".to_string().concat(
                        shown.as_str(),
                    ).concat(" が使われています");
                    Err(Diagnostic::coded("E0205", message, array_span))
                },
            }
        },
    }
}

// Expressions.

/// Whether one of the first `n` fields of a literal has this name.
fn given_before(inits: &Vec<FieldInit>, name: &str, n: usize) -> (r: bool)
    requires
        n <= inits@.len(),
    ensures
        r == typing::given_before(inits_view(inits@), name@, n as int),
{
    let mut j: usize = 0;
    while j < n
        invariant
            0 <= j <= n <= inits@.len(),
            forall|k: int| 0 <= k < j ==> (#[trigger] inits_view(inits@)[k]).name != name@,
        decreases n - j,
    {
        assert(inits_view(inits@)[j as int] == init_view(inits@[j as int]));
        if text_eq(inits[j].name.as_str(), name) {
            return true;
        }
        j += 1;
    }
    false
}

/// The names of the fields that a literal does not give, separated by commas.
fn missing_fields(fields: &Vec<Param>, inits: &Vec<FieldInit>) -> (r: String)
    ensures
        r@ == typing::listed(
            typing::missing_fields(params_view(fields@), inits_view(inits@), 0),
        ),
{
    let ghost ps = params_view(fields@);
    let ghost all = inits_view(inits@);
    let mut names: Vec<String> = Vec::new();
    let mut i: usize = 0;
    assert(names_view(names@) =~= Seq::empty());
    assert(Seq::<Seq<char>>::empty() + typing::missing_fields(ps, all, 0)
        =~= typing::missing_fields(ps, all, 0));
    while i < fields.len()
        invariant
            0 <= i <= fields@.len(),
            ps == params_view(fields@),
            all == inits_view(inits@),
            typing::missing_fields(ps, all, 0) == names_view(names@) + typing::missing_fields(
                ps,
                all,
                i as int,
            ),
        decreases fields@.len() - i,
    {
        let ghost before = names_view(names@);
        if !given_before(inits, fields[i].name.as_str(), inits.len()) {
            names.push(fields[i].name.clone());
            proof {
                assert(names_view(names@) =~= before.push(ps[i as int].name));
                assert(before + (seq![ps[i as int].name] + typing::missing_fields(ps, all, i + 1))
                    =~= names_view(names@) + typing::missing_fields(ps, all, i + 1));
            }
        }
        i += 1;
    }
    assert(names_view(names@) + Seq::<Seq<char>>::empty() =~= names_view(names@));
    list_names(&names)
}

/// The names, separated by commas.
fn list_names(names: &Vec<String>) -> (r: String)
    ensures
        r@ == typing::listed(names_view(names@)),
{
    let ghost all = names_view(names@);
    let mut out = String::new();
    let mut i: usize = 0;
    assert(all.take(0) =~= Seq::empty());
    while i < names.len()
        invariant
            0 <= i <= names@.len(),
            all == names_view(names@),
            out@ == typing::listed(all.take(i as int)),
        decreases names@.len() - i,
    {
        if i > 0 {
            out.append(", ");
        }
        out.append(names[i].as_str());
        proof {
            let next = all.take(i + 1);
            assert(next.drop_last() =~= all.take(i as int));
            assert(next.last() == all[i as int]);
            if i == 0 {
                assert(next[0] == all[0]);
                assert(out@ =~= all[0]);
            }
        }
        i += 1;
    }
    assert(all.take(i as int) =~= all);
    out
}

/// The type of an expression.
pub(crate) fn check_expr(p: &Program, env: &Vec<(String, Type)>, e: &Expr) -> (r: Result<
    Type,
    Diagnostic,
>)
    ensures
        type_agrees(r, typing::type_of(p@, env_view(env@), e@)),
    decreases e, 0int,
{
    match &e.kind {
        ExprKind::Int(_) => Ok(Type::Int),
        ExprKind::Float(_) => Ok(Type::Float),
        ExprKind::Bool(_) => Ok(Type::Bool),
        ExprKind::Str(_) => Ok(Type::Str),
        ExprKind::Null => Ok(Type::Null),
        ExprKind::Var(name) => check_var(p, env, name, e.span),
        ExprKind::Unary { op, expr } => {
            let t = check_expr(p, env, expr)?;
            unary_type(*op, t, expr.span)
        },
        ExprKind::Binary { op, lhs, rhs } => {
            let lt = check_expr(p, env, lhs)?;
            let rt = check_expr(p, env, rhs)?;
            binary_type(*op, lt, rt, lhs.span, rhs.span, e.span)
        },
        ExprKind::Call { name, args } => check_call(p, env, name, args, e.span),
        ExprKind::Array(elems) => {
            assert(e@.kind == ExprKindV::Array(exprs_view(elems@)));
            if elems.len() == 0 {
                return Err(
                    Diagnostic::coded(
                        "E0206",
                        "空の配列リテラルは書けません（要素型を推論できません）".to_string(),
                        e.span,
                    ),
                );
            }
            let t = check_expr(p, env, &elems[0])?;
            match t.as_elem() {
                None => Err(
                    Diagnostic::coded(
                        "E0206",
                        "配列の要素の型を null だけからは推論できません".to_string(),
                        elems[0].span,
                    ),
                ),
                Some(elem) => {
                    check_all(p, env, t, elems)?;
                    Ok(Type::Array(elem))
                },
            }
        },
        ExprKind::Index { array, index } => {
            let at = check_expr(p, env, array)?;
            let it = check_expr(p, env, index)?;
            index_type(at, it, array.span, index.span)
        },
        ExprKind::Slice { seq, lo, hi } => {
            let t = check_expr(p, env, seq)?;
            check_bound(p, env, lo)?;
            check_bound(p, env, hi)?;
            if matches!(t, Type::Array(_) | Type::Str) {
                Ok(t)
            } else {
                let shown = t.name();
                let message = "スライスできるのは配列か文字列だけですが ".to_string().concat(
                    shown.as_str(),
                ).concat(" が使われています");
                Err(Diagnostic::coded("E0205", message, seq.span))
            }
        },
        ExprKind::StructLit { name, fields } => {
            assert(e@.kind == (ExprKindV::StructLit {
                name: name@,
                fields: inits_view(fields@),
            }));
            let k: usize = find_struct(p, name.as_str());
            if k >= p.structs.len() {
                let message = "不明な構造体: ".to_string().concat(name.as_str());
                return Err(Diagnostic::coded("E0303", message, e.span));
            }
            let def = &p.structs[k];
            assert(p@.structs[k as int] == struct_view(*def));
            proof {
                lemma_struct_index_name(p@, name@, 0);
            }
            check_inits(p, env, def, fields)?;
            if fields.len() == def.fields.len() {
                Ok(Type::Struct(intern(name.as_str())))
            } else {
                let missing = missing_fields(&def.fields, fields);
                let message = "構造体 ".to_string().concat(name.as_str()).concat(
                    " のフィールドが足りません: ",
                ).concat(missing.as_str());
                Err(Diagnostic::coded("E0307", message, e.span))
            }
        },
        ExprKind::MapLit(pairs) => {
            assert(e@.kind == ExprKindV::MapLit(pairs_view(pairs@)));
            if pairs.len() == 0 {
                return Err(
                    Diagnostic::coded(
                        "E0206",
                        "空の map リテラルは書けません（値の型を推論できません）".to_string(),
                        e.span,
                    ),
                );
            }
            assert(pairs_view(pairs@)[0] == pair_view(pairs@[0]));
            let kt = check_expr(p, env, &pairs[0].0)?;
            expect(Type::Str, kt, pairs[0].0.span)?;
            let t = check_expr(p, env, &pairs[0].1)?;
            match t.as_elem() {
                None => Err(
                    Diagnostic::coded(
                        "E0206",
                        "map の値の型を null だけからは推論できません".to_string(),
                        pairs[0].1.span,
                    ),
                ),
                Some(elem) => {
                    check_pairs(p, env, t, pairs)?;
                    Ok(Type::MapOf(elem))
                },
            }
        },
        ExprKind::Field { obj, field } => {
            let t = check_expr(p, env, obj)?;
            check_field(p, t, field, e.span, obj.span)
        },
    }
}

proof fn lemma_struct_index_name(p: ProgramV, name: Seq<char>, i: int)
    requires
        0 <= i,
    ensures
        i <= struct_index(p, name, i) || i > p.structs.len(),
        struct_index(p, name, i) < p.structs.len() ==> p.structs[struct_index(p, name, i)].name
            == name,
    decreases p.structs.len() - i,
{
    if i < p.structs.len() && p.structs[i].name != name {
        lemma_struct_index_name(p, name, i + 1);
    }
}

/// The type of a name: of a variant without a payload, or of a variable.
fn check_var(p: &Program, env: &Vec<(String, Type)>, name: &String, span: Span) -> (r: Result<
    Type,
    Diagnostic,
>)
    ensures
        type_agrees(
            r,
            typing::type_of(p@, env_view(env@), ExprV { kind: ExprKindV::Var(name@), span }),
        ),
{
    let k: usize = find_home(p, name.as_str());
    if k < p.enums.len() {
        let def = &p.enums[k];
        assert(p@.enums[k as int] == enum_view(*def));
        let j: usize = find_variant(&def.variants, name.as_str());
        let payload = &def.variants[j].fields;
        assert(p@.enums[k as int].variants[j as int] == variant_view(def.variants@[j as int]));
        return if payload.len() == 0 {
            Ok(Type::Enum(intern(def.name.as_str())))
        } else {
            Err(counted_error("列挙子 ", name.as_str(), " は値 ", payload.len(), 0, span))
        };
    }
    match lookup(env, name.as_str()) {
        Some(t) => Ok(t),
        None => Err(
            Diagnostic::coded("E0101", "未定義の変数: ".to_string().concat(name.as_str()), span),
        ),
    }
}

/// The type of a field of a value of type `t`.
fn check_field(p: &Program, t: Type, field: &String, span: Span, obj_span: Span) -> (r: Result<
    Type,
    Diagnostic,
>)
    ensures
        type_agrees(r, typing::field_type(p@, t@, field@, span, obj_span)),
{
    match t {
        Type::Struct(name) => {
            let k: usize = find_struct(p, name);
            if k >= p.structs.len() {
                return Err(no_field(name, field.as_str(), span));
            }
            let def = &p.structs[k];
            assert(p@.structs[k as int] == struct_view(*def));
            let i: usize = find_param(&def.fields, field.as_str());
            if i < def.fields.len() {
                assert(p@.structs[k as int].fields[i as int] == param_view(def.fields@[i as int]));
                Ok(resolve_type(p, def.fields[i].ty))
            } else {
                Err(no_field(name, field.as_str(), span))
            }
        },
        other => {
            let shown = other.name();
            let message = "フィールドアクセスできるのは構造体だけですが ".to_string().concat(
                shown.as_str(),
            ).concat(" が使われています");
            Err(Diagnostic::coded("E0305", message, obj_span))
        },
    }
}

fn check_bound(p: &Program, env: &Vec<(String, Type)>, b: &Option<Box<Expr>>) -> (r: Result<
    (),
    Diagnostic,
>)
    ensures
        agrees(r, typing::bound_ok(p@, env_view(env@), opt_expr_view(*b))),
    decreases b, 0int,
{
    match b {
        None => Ok(()),
        Some(e) => {
            let t = check_expr(p, env, e)?;
            expect(Type::Int, t, e.span)
        },
    }
}

/// Checks that the expressions after the first fit the type `t`.
fn check_all(p: &Program, env: &Vec<(String, Type)>, t: Type, es: &Vec<Expr>) -> (r: Result<
    (),
    Diagnostic,
>)
    ensures
        agrees(r, typing::all_fit(p@, env_view(env@), t@, exprs_view(es@), 1)),
    decreases es, 0int,
{
    let ghost all = exprs_view(es@);
    let ghost vars = env_view(env@);
    if es.len() == 0 {
        return Ok(());
    }
    let mut i: usize = 1;
    while i < es.len()
        invariant
            1 <= i <= es@.len(),
            all == exprs_view(es@),
            vars == env_view(env@),
            typing::all_fit(p@, vars, t@, all, 1) == typing::all_fit(p@, vars, t@, all, i as int),
        decreases es@.len() - i,
    {
        assert(all[i as int] == es@[i as int]@);
        let got = check_expr(p, env, &es[i])?;
        expect(t, got, es[i].span)?;
        i += 1;
    }
    Ok(())
}

/// Checks that the arguments fit the parameters.
fn check_args(p: &Program, env: &Vec<(String, Type)>, ts: &Vec<Type>, es: &Vec<Expr>) -> (r:
    Result<(), Diagnostic>)
    requires
        ts@.len() == es@.len(),
    ensures
        agrees(
            r,
            typing::args_fit(p@, env_view(env@), types_view(ts@), exprs_view(es@), 0),
        ),
    decreases es, 0int,
{
    let ghost all = exprs_view(es@);
    let ghost vars = env_view(env@);
    let ghost params = types_view(ts@);
    let mut i: usize = 0;
    while i < es.len()
        invariant
            0 <= i <= es@.len(),
            ts@.len() == es@.len(),
            all == exprs_view(es@),
            vars == env_view(env@),
            params == types_view(ts@),
            typing::args_fit(p@, vars, params, all, 0) == typing::args_fit(
                p@,
                vars,
                params,
                all,
                i as int,
            ),
        decreases es@.len() - i,
    {
        assert(all[i as int] == es@[i as int]@);
        let got = check_expr(p, env, &es[i])?;
        expect(ts[i], got, es[i].span)?;
        i += 1;
    }
    Ok(())
}

/// Checks the entries of a map literal after the first.
fn check_pairs(p: &Program, env: &Vec<(String, Type)>, t: Type, es: &Vec<(Expr, Expr)>) -> (r:
    Result<(), Diagnostic>)
    ensures
        agrees(r, typing::pairs_fit(p@, env_view(env@), t@, pairs_view(es@), 1)),
    decreases es, 0int,
{
    let ghost all = pairs_view(es@);
    let ghost vars = env_view(env@);
    if es.len() == 0 {
        return Ok(());
    }
    let mut i: usize = 1;
    while i < es.len()
        invariant
            1 <= i <= es@.len(),
            all == pairs_view(es@),
            vars == env_view(env@),
            typing::pairs_fit(p@, vars, t@, all, 1) == typing::pairs_fit(
                p@,
                vars,
                t@,
                all,
                i as int,
            ),
        decreases es@.len() - i,
    {
        assert(all[i as int] == pair_view(es@[i as int]));
        let kt = check_expr(p, env, &es[i].0)?;
        expect(Type::Str, kt, es[i].0.span)?;
        let got = check_expr(p, env, &es[i].1)?;
        expect(t, got, es[i].1.span)?;
        i += 1;
    }
    Ok(())
}

/// Checks the fields of a structure literal, but for fields that are missing.
fn check_inits(p: &Program, env: &Vec<(String, Type)>, def: &StructDef, inits: &Vec<FieldInit>)
    -> (r: Result<(), Diagnostic>)
    ensures
        agrees(
            r,
            typing::inits_fit(p@, env_view(env@), struct_view(*def), inits_view(inits@), 0),
        ),
    decreases inits, 0int,
{
    let ghost all = inits_view(inits@);
    let ghost vars = env_view(env@);
    let ghost d = struct_view(*def);
    let mut i: usize = 0;
    while i < inits.len()
        invariant
            0 <= i <= inits@.len(),
            all == inits_view(inits@),
            vars == env_view(env@),
            d == struct_view(*def),
            typing::inits_fit(p@, vars, d, all, 0) == typing::inits_fit(
                p@,
                vars,
                d,
                all,
                i as int,
            ),
        decreases inits@.len() - i,
    {
        let f = &inits[i];
        assert(all[i as int] == init_view(*f));
        let k: usize = find_param(&def.fields, f.name.as_str());
        if k >= def.fields.len() {
            return Err(no_field(def.name.as_str(), f.name.as_str(), f.span));
        }
        if given_before(inits, f.name.as_str(), i) {
            let message = "フィールド ".to_string().concat(f.name.as_str()).concat(
                " が二重に指定されています",
            );
            return Err(Diagnostic::coded("E0307", message, f.span));
        }
        assert(d.fields[k as int] == param_view(def.fields@[k as int]));
        let got = check_expr(p, env, &f.value)?;
        expect(resolve_type(p, def.fields[k].ty), got, f.value.span)?;
        i += 1;
    }
    Ok(())
}

/// The types of parameters, with the names in them resolved.
fn param_types(p: &Program, ps: &Vec<Param>) -> (r: Vec<Type>)
    ensures
        types_view(r@) == typing::param_types(p@, params_view(ps@)),
        r@.len() == ps@.len(),
{
    let mut r: Vec<Type> = Vec::new();
    let mut i: usize = 0;
    while i < ps.len()
        invariant
            0 <= i <= ps@.len(),
            r@.len() == i,
            forall|k: int| 0 <= k < i ==> (#[trigger] r@[k])@ == resolve(p@, ps@[k].ty@),
        decreases ps@.len() - i,
    {
        r.push(resolve_type(p, ps[i].ty));
        i += 1;
    }
    assert(types_view(r@) =~= typing::param_types(p@, params_view(ps@)));
    r
}

/// The types, with the names in them resolved.
fn resolve_types(p: &Program, ts: &Vec<Type>) -> (r: Vec<Type>)
    ensures
        types_view(r@) == resolve_all(p@, types_view(ts@)),
        r@.len() == ts@.len(),
{
    let mut r: Vec<Type> = Vec::new();
    let mut i: usize = 0;
    while i < ts.len()
        invariant
            0 <= i <= ts@.len(),
            r@.len() == i,
            forall|k: int| 0 <= k < i ==> (#[trigger] r@[k])@ == resolve(p@, ts@[k]@),
        decreases ts@.len() - i,
    {
        r.push(resolve_type(p, ts[i]));
        i += 1;
    }
    assert(types_view(r@) =~= resolve_all(p@, types_view(ts@)));
    r
}

/// The type of a call.
fn check_call(
    p: &Program,
    env: &Vec<(String, Type)>,
    name: &String,
    args: &Vec<Expr>,
    span: Span,
) -> (r: Result<Type, Diagnostic>)
    ensures
        type_agrees(
            r,
            typing::call_type(p@, env_view(env@), name@, exprs_view(args@), span),
        ),
    decreases args, 1int,
{
    let n: usize = args.len();
    assert(exprs_view(args@).len() == n);
    if let Some(b) = builtin_of(name.as_str()) {
        if let Some((params, ret)) = fixed_sig_of(b) {
            assert(types_view(params@).len() == params@.len());
            if params.len() != n {
                return Err(builtin_arity_error(name.as_str(), params.len(), n, span));
            }
            check_args(p, env, &params, args)?;
            return Ok(ret);
        }
        let arity: usize = generic_arity_of(b);
        if arity != n {
            return Err(builtin_arity_error(name.as_str(), arity, n, span));
        }
        assert(exprs_view(args@)[0] == args@[0]@);
        let t = check_expr(p, env, &args[0])?;
        let (second, result) = generic_rule(b, name.as_str(), t, args[0].span)?;
        if arity == 2 {
            assert(exprs_view(args@)[1] == args@[1]@);
            let t2 = check_expr(p, env, &args[1])?;
            expect(second, t2, args[1].span)?;
        }
        return Ok(result);
    }
    let k: usize = find_home(p, name.as_str());
    if k < p.enums.len() {
        let def = &p.enums[k];
        assert(p@.enums[k as int] == enum_view(*def));
        let j: usize = find_variant(&def.variants, name.as_str());
        let payload = &def.variants[j].fields;
        assert(p@.enums[k as int].variants[j as int] == variant_view(def.variants@[j as int]));
        if payload.len() != n {
            return Err(
                counted_error("列挙子 ", name.as_str(), " は値 ", payload.len(), n, span),
            );
        }
        let params = resolve_types(p, payload);
        check_args(p, env, &params, args)?;
        return Ok(Type::Enum(intern(def.name.as_str())));
    }
    let k: usize = find_func(p, name.as_str());
    if k >= p.funcs.len() {
        let message = "未定義の関数: ".to_string().concat(name.as_str());
        return Err(Diagnostic::coded("E0102", message, span));
    }
    let f = &p.funcs[k];
    assert(p@.funcs[k as int] == function_view(*f));
    if f.params.len() != n {
        return Err(
            counted_error("関数 ", name.as_str(), " は引数 ", f.params.len(), n, span),
        );
    }
    let params = param_types(p, &f.params);
    check_args(p, env, &params, args)?;
    Ok(resolve_type(p, f.ret))
}

// Statements.

/// The answer of a check that can change the variables.
spec fn env_agrees(
    r: Result<(), Diagnostic>,
    after: Seq<(String, Type)>,
    want: Result<Seq<(Seq<char>, Ty)>, DiagV>,
) -> bool {
    match r {
        Ok(_) => want == Ok::<Seq<(Seq<char>, Ty)>, DiagV>(env_view(after)),
        Err(d) => want == Err::<Seq<(Seq<char>, Ty)>, DiagV>(d@),
    }
}

/// Whether the expression is an empty literal that is given its type by `t`.
fn is_empty_literal(e: &Expr, t: Type) -> (r: bool)
    ensures
        r == typing::is_empty_literal(e@, t@),
{
    match &e.kind {
        ExprKind::Array(elems) => {
            assert(e@.kind == ExprKindV::Array(exprs_view(elems@)));
            elems.len() == 0 && matches!(t, Type::Array(_))
        },
        ExprKind::MapLit(pairs) => {
            assert(e@.kind == ExprKindV::MapLit(pairs_view(pairs@)));
            pairs.len() == 0 && matches!(t, Type::MapOf(_))
        },
        _ => false,
    }
}

/// Declares a variable. It hides an earlier one of the same name.
fn declare(env: &mut Vec<(String, Type)>, name: &String, t: Type)
    ensures
        env_view(final(env)@) == env_view(old(env)@).push((name@, t@)),
        final(env)@.len() == old(env)@.len() + 1,
        final(env)@.take(old(env)@.len() as int) == old(env)@,
{
    env.push((name.clone(), t));
    assert(env_view(env@) =~= env_view(old(env)@).push((name@, t@)));
    assert(env@.take(old(env)@.len() as int) =~= old(env)@);
}

/// Forgets the variables that were declared since there were `mark` of them.
fn pop_scope(env: &mut Vec<(String, Type)>, mark: usize)
    requires
        mark <= old(env)@.len(),
    ensures
        final(env)@ == old(env)@.take(mark as int),
{
    env.truncate(mark);
    assert(env@ =~= old(env)@.take(mark as int));
}

/// Checks the bodies of one function.
struct FnChecker<'a> {
    prog: &'a Program,
    ret: Type,
}

impl<'a> FnChecker<'a> {
    spec fn place(&self, in_loop: bool) -> Place {
        Place { prog: self.prog@, ret: self.ret@, in_loop }
    }

    fn check_let(
        &self,
        env: &Vec<(String, Type)>,
        ty: &Option<Type>,
        value: &Expr,
        span: Span,
    ) -> (r: Result<Type, Diagnostic>)
        ensures
            type_agrees(
                r,
                typing::let_type(self.prog@, env_view(env@), opt_ty_view(*ty), value@, span),
            ),
    {
        match ty {
            Some(a) => {
                let want = resolve_type(self.prog, *a);
                if is_empty_literal(value, want) {
                    validate_type(self.prog, *a, span)?;
                    return Ok(want);
                }
                let t = check_expr(self.prog, env, value)?;
                validate_type(self.prog, *a, span)?;
                if fits_type(want, t) {
                    Ok(want)
                } else {
                    let w = want.name();
                    let g = t.name();
                    let message = w.concat(" 型の変数に ").concat(g.as_str()).concat(
                        " 型を入れようとしました",
                    );
                    Err(Diagnostic::coded("E0200", message, value.span))
                }
            },
            None => {
                let t = check_expr(self.prog, env, value)?;
                if matches!(t, Type::Null) {
                    Err(
                        Diagnostic::coded(
                            "E0208",
                            "null だけからは変数の型を推論できません（型注釈 `let x: T = null` を使ってください）".to_string(),
                            value.span,
                        ),
                    )
                } else {
                    Ok(t)
                }
            },
        }
    }

    fn check_target(&self, env: &Vec<(String, Type)>, target: &Expr) -> (r: Result<
        Type,
        Diagnostic,
    >)
        ensures
            type_agrees(r, typing::target_type(self.prog@, env_view(env@), target@)),
    {
        match &target.kind {
            ExprKind::Index { array, .. } => {
                let t = check_expr(self.prog, env, array)?;
                if matches!(t, Type::Str) {
                    return Err(
                        Diagnostic::coded(
                            "E0207",
                            "文字列はイミュータブルです（要素を書き換えられません）".to_string(),
                            target.span,
                        ),
                    );
                }
                check_expr(self.prog, env, target)
            },
            ExprKind::Var(name) => {
                if find_home(self.prog, name.as_str()) < self.prog.enums.len() {
                    return Err(self.no_target(target.span));
                }
                check_expr(self.prog, env, target)
            },
            ExprKind::Field { .. } => check_expr(self.prog, env, target),
            _ => Err(self.no_target(target.span)),
        }
    }

    fn no_target(&self, span: Span) -> (r: Diagnostic)
        ensures
            r@ == diag(
                "E0204"@,
                "代入先が変数・配列要素・フィールドのいずれでもありません"@,
                span,
            ),
    {
        Diagnostic::coded(
            "E0204",
            "代入先が変数・配列要素・フィールドのいずれでもありません".to_string(),
            span,
        )
    }

    fn check_assign(
        &self,
        env: &Vec<(String, Type)>,
        target: &Expr,
        value: &Expr,
        span: Span,
    ) -> (r: Result<(), Diagnostic>)
        ensures
            agrees(r, typing::assign_ok(self.prog@, env_view(env@), target@, value@, span)),
    {
        let want = self.check_target(env, target)?;
        let t = check_expr(self.prog, env, value)?;
        if fits_type(want, t) {
            Ok(())
        } else {
            let w = want.name();
            let g = t.name();
            let message = "代入先は ".to_string().concat(w.as_str()).concat(
                " 型ですが ",
            ).concat(g.as_str()).concat(" 型を代入しようとしました");
            Err(Diagnostic::coded("E0200", message, span))
        }
    }

    fn check_print(&self, env: &Vec<(String, Type)>, e: &Expr) -> (r: Result<(), Diagnostic>)
        ensures
            agrees(r, typing::print_ok(self.prog@, env_view(env@), e@)),
    {
        let t = check_expr(self.prog, env, e)?;
        if t.is_numeric() || matches!(t, Type::Bool | Type::Str) {
            Ok(())
        } else {
            let g = t.name();
            let message = "print できるのは int/bool/float/string です（".to_string().concat(
                g.as_str(),
            ).concat(" は不可）");
            Err(Diagnostic::coded("E0200", message, e.span))
        }
    }

    fn check_return(&self, env: &Vec<(String, Type)>, e: &Expr) -> (r: Result<(), Diagnostic>)
        ensures
            forall|in_loop: bool|
                agrees(
                    r,
                    #[trigger] typing::return_ok(self.place(in_loop), env_view(env@), e@),
                ),
    {
        let t = check_expr(self.prog, env, e)?;
        if fits_type(self.ret, t) {
            Ok(())
        } else {
            let w = self.ret.name();
            let g = t.name();
            let message = "関数は ".to_string().concat(w.as_str()).concat(
                " を返しますが ",
            ).concat(g.as_str()).concat(" を返そうとしています");
            Err(Diagnostic::coded("E0202", message, e.span))
        }
    }

    fn check_cond(&self, env: &Vec<(String, Type)>, e: &Expr) -> (r: Result<(), Diagnostic>)
        ensures
            agrees(r, typing::cond_ok(self.prog@, env_view(env@), e@)),
    {
        let t = check_expr(self.prog, env, e)?;
        if matches!(t, Type::Bool) {
            Ok(())
        } else {
            let g = t.name();
            let message = "条件は bool である必要がありますが ".to_string().concat(
                g.as_str(),
            ).concat(" が使われています");
            Err(Diagnostic::coded("E0201", message, e.span))
        }
    }

    fn check_iter(&self, env: &Vec<(String, Type)>, e: &Expr) -> (r: Result<Type, Diagnostic>)
        ensures
            type_agrees(r, typing::item_type(self.prog@, env_view(env@), e@)),
    {
        let t = check_expr(self.prog, env, e)?;
        match t {
            Type::Array(x) => Ok(x.to_type()),
            Type::MapOf(_) => Ok(Type::Str),
            _ => {
                let g = t.name();
                let message = "for-in で回せるのは配列か map だけですが ".to_string().concat(
                    g.as_str(),
                ).concat(" が使われています");
                Err(Diagnostic::coded("E0200", message, e.span))
            },
        }
    }

    /// The sum type that a `match` takes apart.
    fn check_scrut(&self, env: &Vec<(String, Type)>, e: &Expr) -> (r: Result<
        &'a EnumDef,
        Diagnostic,
    >)
        ensures
            match r {
                Ok(def) => typing::scrut_enum(self.prog@, env_view(env@), e@) == Ok::<
                    EnumDefV,
                    DiagV,
                >(enum_view(*def)),
                Err(d) => typing::scrut_enum(self.prog@, env_view(env@), e@) == Err::<
                    EnumDefV,
                    DiagV,
                >(d@),
            },
    {
        let t = check_expr(self.prog, env, e)?;
        if let Type::Enum(n) = t {
            let k: usize = find_enum(self.prog, n);
            if k < self.prog.enums.len() {
                assert(self.prog@.enums[k as int] == enum_view(self.prog.enums@[k as int]));
                return Ok(&self.prog.enums[k]);
            }
        }
        let g = t.name();
        let message = "match できるのは enum だけですが ".to_string().concat(g.as_str()).concat(
            " が使われています",
        );
        Err(Diagnostic::coded("E0200", message, e.span))
    }

    /// Checks one statement, and declares the variable that it declares.
    fn check_stmt(&self, env: &mut Vec<(String, Type)>, stmt: &Stmt, in_loop: bool) -> (r: Result<
        (),
        Diagnostic,
    >)
        ensures
            env_agrees(
                r,
                final(env)@,
                typing::check_stmt(self.place(in_loop), env_view(old(env)@), stmt@),
            ),
            r is Ok ==> final(env)@.len() >= old(env)@.len() && final(env)@.take(
                old(env)@.len() as int,
            ) == old(env)@,
        decreases stmt, 0int,
    {
        proof {
            assert(env@.take(env@.len() as int) =~= env@);
        }
        match &stmt.kind {
            StmtKind::Let { name, ty, value } => {
                let t = self.check_let(env, ty, value, stmt.span)?;
                declare(env, name, t);
                Ok(())
            },
            StmtKind::Assign { target, value } => self.check_assign(env, target, value, stmt.span),
            StmtKind::Print(e) => self.check_print(env, e),
            StmtKind::Return(e) => {
                let r = self.check_return(env, e);
                assert(agrees(
                    r,
                    typing::return_ok(self.place(in_loop), env_view(env@), e@),
                ));
                r
            },
            StmtKind::ExprStmt(e) => {
                let _t = check_expr(self.prog, env, e)?;
                Ok(())
            },
            StmtKind::If { cond, then_body, else_body } => {
                self.check_cond(env, cond)?;
                self.check_block(env, then_body, in_loop)?;
                self.check_block(env, else_body, in_loop)
            },
            StmtKind::While { cond, body } => {
                self.check_cond(env, cond)?;
                self.check_block(env, body, true)
            },
            StmtKind::For { init, cond, step, body } => {
                let mark: usize = env.len();
                self.check_opt(env, init, in_loop)?;
                self.check_cond(env, cond)?;
                self.check_block(env, body, true)?;
                let ghost inner = env@;
                self.check_opt(env, step, in_loop)?;
                proof {
                    assert(env@.take(mark as int) =~= inner.take(mark as int)) by {
                        assert(env@.take(inner.len() as int).take(mark as int) =~= env@.take(
                            mark as int,
                        ));
                    }
                }
                pop_scope(env, mark);
                Ok(())
            },
            StmtKind::ForIn { var, iter, body } => {
                let mark: usize = env.len();
                let t = self.check_iter(env, iter)?;
                declare(env, var, t);
                self.check_block(env, body, true)?;
                pop_scope(env, mark);
                Ok(())
            },
            StmtKind::Match { scrut, arms } => {
                let def = self.check_scrut(env, scrut)?;
                self.check_arms(env, def, arms, in_loop)?;
                check_exhaustive(def, arms, stmt.span)
            },
            StmtKind::Break => if in_loop {
                Ok(())
            } else {
                Err(
                    Diagnostic::coded(
                        "E0203",
                        "break はループの外では使えません".to_string(),
                        stmt.span,
                    ),
                )
            },
            StmtKind::Continue => if in_loop {
                Ok(())
            } else {
                Err(
                    Diagnostic::coded(
                        "E0203",
                        "continue はループの外では使えません".to_string(),
                        stmt.span,
                    ),
                )
            },
        }
    }

    fn check_opt(&self, env: &mut Vec<(String, Type)>, stmt: &Option<Box<Stmt>>, in_loop: bool)
        -> (r: Result<(), Diagnostic>)
        ensures
            env_agrees(
                r,
                final(env)@,
                typing::check_opt(self.place(in_loop), env_view(old(env)@), opt_stmt_view(*stmt)),
            ),
            r is Ok ==> final(env)@.len() >= old(env)@.len() && final(env)@.take(
                old(env)@.len() as int,
            ) == old(env)@,
        decreases stmt, 0int,
    {
        proof {
            assert(env@.take(env@.len() as int) =~= env@);
        }
        match stmt {
            Some(s) => self.check_stmt(env, s, in_loop),
            None => Ok(()),
        }
    }

    /// Checks statements with a scope of their own: the variables are the same after them.
    fn check_block(&self, env: &mut Vec<(String, Type)>, stmts: &Vec<Stmt>, in_loop: bool) -> (r:
        Result<(), Diagnostic>)
        ensures
            match r {
                Ok(_) => typing::check_stmts(
                    self.place(in_loop),
                    env_view(old(env)@),
                    stmts_view(stmts@),
                    0,
                ) is Ok && final(env)@ == old(env)@,
                Err(d) => typing::check_stmts(
                    self.place(in_loop),
                    env_view(old(env)@),
                    stmts_view(stmts@),
                    0,
                ) == Err::<Seq<(Seq<char>, Ty)>, DiagV>(d@),
            },
        decreases stmts, 0int,
    {
        let mark: usize = env.len();
        let ghost before = env@;
        let ghost all = stmts_view(stmts@);
        let ghost cx = self.place(in_loop);
        let mut i: usize = 0;
        assert(env@.take(mark as int) =~= before);
        while i < stmts.len()
            invariant
                0 <= i <= stmts@.len(),
                all == stmts_view(stmts@),
                cx == self.place(in_loop),
                before == old(env)@,
                mark == before.len(),
                env@.len() >= mark,
                env@.take(mark as int) == before,
                typing::check_stmts(cx, env_view(before), all, 0) == typing::check_stmts(
                    cx,
                    env_view(env@),
                    all,
                    i as int,
                ),
            decreases stmts@.len() - i,
        {
            assert(all[i as int] == stmts@[i as int]@);
            let ghost prev = env@;
            self.check_stmt(env, &stmts[i], in_loop)?;
            proof {
                assert(env@.take(mark as int) =~= env@.take(prev.len() as int).take(mark as int));
            }
            i += 1;
        }
        pop_scope(env, mark);
        Ok(())
    }

    fn check_arms(
        &self,
        env: &mut Vec<(String, Type)>,
        def: &EnumDef,
        arms: &Vec<MatchArm>,
        in_loop: bool,
    ) -> (r: Result<(), Diagnostic>)
        ensures
            agrees(
                r,
                typing::check_arms(
                    self.place(in_loop),
                    env_view(old(env)@),
                    enum_view(*def),
                    arms_view(arms@),
                    0,
                ),
            ),
            r is Ok ==> final(env)@ == old(env)@,
        decreases arms, 0int,
    {
        let mark: usize = env.len();
        let ghost before = env@;
        let ghost vars = env_view(env@);
        let ghost all = arms_view(arms@);
        let ghost d = enum_view(*def);
        let ghost cx = self.place(in_loop);
        let mut i: usize = 0;
        while i < arms.len()
            invariant
                0 <= i <= arms@.len(),
                all == arms_view(arms@),
                cx == self.place(in_loop),
                d == enum_view(*def),
                env@ == before,
                before == old(env)@,
                mark == before.len(),
                vars == env_view(before),
                typing::check_arms(cx, vars, d, all, 0) == typing::check_arms(
                    cx,
                    vars,
                    d,
                    all,
                    i as int,
                ),
            decreases arms@.len() - i,
        {
            let arm = &arms[i];
            assert(all[i as int] == arm_view(*arm));
            check_pattern(def, arms, i)?;
            self.bind_arm(env, def, arm);
            self.check_block(env, &arm.body, in_loop)?;
            pop_scope(env, mark);
            i += 1;
        }
        Ok(())
    }

    /// Declares the names for the payload of an arm.
    fn bind_arm(&self, env: &mut Vec<(String, Type)>, def: &EnumDef, arm: &MatchArm)
        requires
            ({
                let k = variant_index(variants_view(def.variants@), arm.variant@, 0);
                arm.wildcard || (k < def.variants@.len() && def.variants@[k].fields@.len()
                    == arm.bindings@.len())
            }),
        ensures
            env_view(final(env)@) == typing::arm_env(
                self.prog@,
                env_view(old(env)@),
                enum_view(*def),
                arm_view(*arm),
            ),
            final(env)@.len() >= old(env)@.len(),
            final(env)@.take(old(env)@.len() as int) == old(env)@,
    {
        let ghost before = env@;
        assert(env@.take(before.len() as int) =~= before);
        if arm.wildcard {
            return ;
        }
        let k: usize = find_variant(&def.variants, arm.variant.as_str());
        let fields = &def.variants[k].fields;
        let ghost a = arm_view(*arm);
        let ghost added = Seq::new(
            a.bindings.len(),
            |j: int| (a.bindings[j], resolve(self.prog@, types_view(fields@)[j])),
        );
        let mut j: usize = 0;
        assert(env_view(env@) =~= env_view(before) + added.take(0));
        while j < arm.bindings.len()
            invariant
                0 <= j <= arm.bindings@.len(),
                fields@.len() == arm.bindings@.len(),
                a == arm_view(*arm),
                added == Seq::new(
                    a.bindings.len(),
                    |j: int| (a.bindings[j], resolve(self.prog@, types_view(fields@)[j])),
                ),
                env_view(env@) == env_view(before) + added.take(j as int),
                env@.len() >= before.len(),
                env@.take(before.len() as int) == before,
            decreases arm.bindings@.len() - j,
        {
            let ghost prev = env@;
            let t = resolve_type(self.prog, fields[j]);
            declare(env, &arm.bindings[j], t);
            proof {
                assert(added.take(j + 1) =~= added.take(j as int).push(added[j as int]));
                assert(env_view(env@) =~= env_view(before) + added.take(j + 1));
                assert(env@.take(before.len() as int) =~= env@.take(prev.len() as int).take(
                    before.len() as int,
                ));
            }
            j += 1;
        }
        proof {
            assert(added.take(j as int) =~= added);
            assert(enum_view(*def).variants[k as int] == variant_view(def.variants@[k as int]));
        }
    }
}

/// Whether one of the first `n` arms is for the variant of this name.
fn covered(arms: &Vec<MatchArm>, name: &str, n: usize) -> (r: bool)
    requires
        n <= arms@.len(),
    ensures
        r == typing::covered(arms_view(arms@), name@, n as int),
{
    let mut j: usize = 0;
    while j < n
        invariant
            0 <= j <= n <= arms@.len(),
            forall|k: int|
                0 <= k < j ==> (#[trigger] arms_view(arms@)[k]).wildcard || arms_view(
                    arms@,
                )[k].variant != name@,
        decreases n - j,
    {
        assert(arms_view(arms@)[j as int] == arm_view(arms@[j as int]));
        if !arms[j].wildcard && text_eq(arms[j].variant.as_str(), name) {
            return true;
        }
        j += 1;
    }
    false
}

/// Whether one of the first `n` arms takes everything.
fn caught(arms: &Vec<MatchArm>, n: usize) -> (r: bool)
    requires
        n <= arms@.len(),
    ensures
        r == typing::caught(arms_view(arms@), n as int),
{
    let mut j: usize = 0;
    while j < n
        invariant
            0 <= j <= n <= arms@.len(),
            forall|k: int| 0 <= k < j ==> !(#[trigger] arms_view(arms@)[k]).wildcard,
        decreases n - j,
    {
        assert(arms_view(arms@)[j as int] == arm_view(arms@[j as int]));
        if arms[j].wildcard {
            return true;
        }
        j += 1;
    }
    false
}

/// The names of the variants that none of the first `n` arms is for.
fn missing_variants(vs: &Vec<EnumVariant>, arms: &Vec<MatchArm>, n: usize) -> (r: Vec<String>)
    requires
        n <= arms@.len(),
    ensures
        names_view(r@) == typing::missing_variants(
            variants_view(vs@),
            arms_view(arms@),
            n as int,
            0,
        ),
{
    let ghost all = variants_view(vs@);
    let ghost av = arms_view(arms@);
    let mut names: Vec<String> = Vec::new();
    let mut i: usize = 0;
    assert(names_view(names@) =~= Seq::empty());
    assert(Seq::<Seq<char>>::empty() + typing::missing_variants(all, av, n as int, 0)
        =~= typing::missing_variants(all, av, n as int, 0));
    while i < vs.len()
        invariant
            0 <= i <= vs@.len(),
            n <= arms@.len(),
            all == variants_view(vs@),
            av == arms_view(arms@),
            typing::missing_variants(all, av, n as int, 0) == names_view(names@)
                + typing::missing_variants(all, av, n as int, i as int),
        decreases vs@.len() - i,
    {
        let ghost before = names_view(names@);
        if !covered(arms, vs[i].name.as_str(), n) {
            names.push(vs[i].name.clone());
            proof {
                assert(names_view(names@) =~= before.push(all[i as int].name));
                assert(before + (seq![all[i as int].name] + typing::missing_variants(
                    all,
                    av,
                    n as int,
                    i + 1,
                )) =~= names_view(names@) + typing::missing_variants(all, av, n as int, i + 1));
            }
        }
        i += 1;
    }
    assert(names_view(names@) + Seq::<Seq<char>>::empty() =~= names_view(names@));
    names
}

/// Checks the pattern of arm `i`.
fn check_pattern(def: &EnumDef, arms: &Vec<MatchArm>, i: usize) -> (r: Result<(), Diagnostic>)
    requires
        i < arms@.len(),
    ensures
        agrees(r, typing::pattern_ok(enum_view(*def), arms_view(arms@), i as int)),
        r is Ok ==> ({
            let arm = arms@[i as int];
            let k = variant_index(variants_view(def.variants@), arm.variant@, 0);
            arm.wildcard || (k < def.variants@.len() && def.variants@[k].fields@.len()
                == arm.bindings@.len())
        }),
{
    let arm = &arms[i];
    assert(arms_view(arms@)[i as int] == arm_view(*arm));
    let k: usize = find_variant(&def.variants, arm.variant.as_str());
    if !arm.wildcard && k >= def.variants.len() {
        let message = "enum ".to_string().concat(def.name.as_str()).concat(" に列挙子 ").concat(
            arm.variant.as_str(),
        ).concat(" はありません");
        return Err(Diagnostic::coded("E0308", message, arm.span));
    }
    let useless = caught(arms, i) || (if arm.wildcard {
        missing_variants(&def.variants, arms, i).len() == 0
    } else {
        covered(arms, arm.variant.as_str(), i)
    });
    if useless {
        return Err(
            Diagnostic::coded("E0210", "到達できないアームです".to_string(), arm.span),
        );
    }
    if !arm.wildcard {
        assert(enum_view(*def).variants[k as int] == variant_view(def.variants@[k as int]));
        let count: usize = def.variants[k].fields.len();
        if arm.bindings.len() != count {
            return Err(
                counted_error(
                    "列挙子 ",
                    arm.variant.as_str(),
                    " は値 ",
                    count,
                    arm.bindings.len(),
                    arm.span,
                ),
            );
        }
    }
    Ok(())
}

/// Checks that the arms take apart every value.
fn check_exhaustive(def: &EnumDef, arms: &Vec<MatchArm>, span: Span) -> (r: Result<
    (),
    Diagnostic,
>)
    ensures
        agrees(r, typing::exhaustive(enum_view(*def), arms_view(arms@), span)),
{
    let n: usize = arms.len();
    let missing = missing_variants(&def.variants, arms, n);
    if caught(arms, n) || missing.len() == 0 {
        Ok(())
    } else {
        let names = list_names(&missing);
        let message = "match が網羅的ではありません。足りない列挙子: ".to_string().concat(
            names.as_str(),
        );
        Err(Diagnostic::coded("E0209", message, span))
    }
}

// Programs.

fn check_distinct_fields(fields: &Vec<Param>) -> (r: Result<(), Diagnostic>)
    ensures
        agrees(r, typing::fields_distinct(params_view(fields@), 0)),
{
    let ghost all = params_view(fields@);
    let mut i: usize = 0;
    while i < fields.len()
        invariant
            0 <= i <= fields@.len(),
            all == params_view(fields@),
            typing::fields_distinct(all, 0) == typing::fields_distinct(all, i as int),
        decreases fields@.len() - i,
    {
        let f = &fields[i];
        assert(all[i as int] == param_view(*f));
        if find_param(fields, f.name.as_str()) < i {
            let message = "フィールド ".to_string().concat(f.name.as_str()).concat(
                " が重複しています",
            );
            return Err(Diagnostic::coded("E0307", message, f.span));
        }
        i += 1;
    }
    Ok(())
}

fn check_structs(p: &Program) -> (r: Result<(), Diagnostic>)
    ensures
        agrees(r, typing::structs_ok(p@, 0)),
{
    let mut i: usize = 0;
    while i < p.structs.len()
        invariant
            0 <= i <= p.structs@.len(),
            typing::structs_ok(p@, 0) == typing::structs_ok(p@, i as int),
        decreases p.structs@.len() - i,
    {
        let s = &p.structs[i];
        assert(p@.structs[i as int] == struct_view(*s));
        if is_reserved_name(s.name.as_str()) {
            let message = s.name.clone().concat(" は予約語なので構造体名に使えません");
            return Err(Diagnostic::coded("E0302", message, s.span));
        }
        if find_struct(p, s.name.as_str()) < i {
            let message = "構造体 ".to_string().concat(s.name.as_str()).concat(
                " が二重に定義されています",
            );
            return Err(Diagnostic::coded("E0304", message, s.span));
        }
        check_distinct_fields(&s.fields)?;
        i += 1;
    }
    Ok(())
}

fn check_variants(p: &Program, i: usize) -> (r: Result<(), Diagnostic>)
    requires
        i < p.enums@.len(),
    ensures
        agrees(r, typing::variants_ok(p@, i as int, 0)),
{
    let vs = &p.enums[i].variants;
    let mut j: usize = 0;
    assert(p@.enums[i as int] == enum_view(p.enums@[i as int]));
    while j < vs.len()
        invariant
            0 <= j <= vs@.len(),
            i < p.enums@.len(),
            p@.enums[i as int].variants == variants_view(vs@),
            typing::variants_ok(p@, i as int, 0) == typing::variants_ok(p@, i as int, j as int),
        decreases vs@.len() - j,
    {
        let v = &vs[j];
        assert(p@.enums[i as int].variants[j as int] == variant_view(*v));
        if is_reserved_name(v.name.as_str()) {
            let message = v.name.clone().concat(" は予約語なので列挙子名に使えません");
            return Err(Diagnostic::coded("E0302", message, v.span));
        }
        if find_variant(vs, v.name.as_str()) < j || find_home(p, v.name.as_str()) < i {
            let message = "列挙子 ".to_string().concat(v.name.as_str()).concat(
                " が二重に定義されています",
            );
            return Err(Diagnostic::coded("E0304", message, v.span));
        }
        j += 1;
    }
    Ok(())
}

fn check_enums(p: &Program) -> (r: Result<(), Diagnostic>)
    ensures
        agrees(r, typing::enums_ok(p@, 0)),
{
    let mut i: usize = 0;
    while i < p.enums.len()
        invariant
            0 <= i <= p.enums@.len(),
            typing::enums_ok(p@, 0) == typing::enums_ok(p@, i as int),
        decreases p.enums@.len() - i,
    {
        let e = &p.enums[i];
        assert(p@.enums[i as int] == enum_view(*e));
        if is_reserved_name(e.name.as_str()) {
            let message = e.name.clone().concat(" は予約語なので enum 名に使えません");
            return Err(Diagnostic::coded("E0302", message, e.span));
        }
        if find_struct(p, e.name.as_str()) < p.structs.len() || find_enum(p, e.name.as_str()) < i {
            let message = "型 ".to_string().concat(e.name.as_str()).concat(
                " が二重に定義されています",
            );
            return Err(Diagnostic::coded("E0304", message, e.span));
        }
        check_variants(p, i)?;
        i += 1;
    }
    Ok(())
}

fn check_params(p: &Program, ps: &Vec<Param>) -> (r: Result<(), Diagnostic>)
    ensures
        agrees(r, typing::params_valid(p@, params_view(ps@), 0)),
{
    let ghost all = params_view(ps@);
    let mut i: usize = 0;
    while i < ps.len()
        invariant
            0 <= i <= ps@.len(),
            all == params_view(ps@),
            typing::params_valid(p@, all, 0) == typing::params_valid(p@, all, i as int),
        decreases ps@.len() - i,
    {
        assert(all[i as int] == param_view(ps@[i as int]));
        validate_type(p, ps[i].ty, ps[i].span)?;
        i += 1;
    }
    Ok(())
}

fn check_fields(p: &Program) -> (r: Result<(), Diagnostic>)
    ensures
        agrees(r, typing::fields_valid(p@, 0)),
{
    let mut i: usize = 0;
    while i < p.structs.len()
        invariant
            0 <= i <= p.structs@.len(),
            typing::fields_valid(p@, 0) == typing::fields_valid(p@, i as int),
        decreases p.structs@.len() - i,
    {
        assert(p@.structs[i as int] == struct_view(p.structs@[i as int]));
        check_params(p, &p.structs[i].fields)?;
        i += 1;
    }
    Ok(())
}

fn check_types(p: &Program, ts: &Vec<Type>, span: Span) -> (r: Result<(), Diagnostic>)
    ensures
        agrees(r, typing::types_valid(p@, types_view(ts@), span, 0)),
{
    let ghost all = types_view(ts@);
    let mut i: usize = 0;
    while i < ts.len()
        invariant
            0 <= i <= ts@.len(),
            all == types_view(ts@),
            typing::types_valid(p@, all, span, 0) == typing::types_valid(p@, all, span, i as int),
        decreases ts@.len() - i,
    {
        validate_type(p, ts[i], span)?;
        i += 1;
    }
    Ok(())
}

fn check_payloads(p: &Program) -> (r: Result<(), Diagnostic>)
    ensures
        agrees(r, typing::payloads_valid(p@, 0)),
{
    let mut i: usize = 0;
    while i < p.enums.len()
        invariant
            0 <= i <= p.enums@.len(),
            typing::payloads_valid(p@, 0) == typing::payloads_valid(p@, i as int),
        decreases p.enums@.len() - i,
    {
        assert(p@.enums[i as int] == enum_view(p.enums@[i as int]));
        let vs = &p.enums[i].variants;
        let ghost all = variants_view(vs@);
        let mut j: usize = 0;
        while j < vs.len()
            invariant
                0 <= i < p.enums@.len(),
                0 <= j <= vs@.len(),
                all == variants_view(vs@),
                p@.enums[i as int].variants == all,
                typing::payloads_valid(p@, 0) == typing::payloads_valid(p@, i as int),
                typing::variants_valid(p@, all, 0) == typing::variants_valid(p@, all, j as int),
            decreases vs@.len() - j,
        {
            assert(all[j as int] == variant_view(vs@[j as int]));
            check_types(p, &vs[j].fields, vs[j].span)?;
            j += 1;
        }
        i += 1;
    }
    Ok(())
}

fn check_funcs(p: &Program) -> (r: Result<(), Diagnostic>)
    ensures
        agrees(r, typing::funcs_ok(p@, 0)),
{
    let mut i: usize = 0;
    while i < p.funcs.len()
        invariant
            0 <= i <= p.funcs@.len(),
            typing::funcs_ok(p@, 0) == typing::funcs_ok(p@, i as int),
        decreases p.funcs@.len() - i,
    {
        let f = &p.funcs[i];
        assert(p@.funcs[i as int] == function_view(*f));
        let name = f.name.as_str();
        if is_reserved_name(name) || find_struct(p, name) < p.structs.len() || find_enum(p, name)
            < p.enums.len() || find_home(p, name) < p.enums.len() {
            let message = f.name.clone().concat(
                " は型名・組み込み関数なので関数名に使えません",
            );
            return Err(Diagnostic::coded("E0302", message, f.span));
        }
        if find_func(p, name) < i {
            let message = "関数 ".to_string().concat(name).concat(" が二重に定義されています");
            return Err(Diagnostic::coded("E0103", message, f.span));
        }
        check_params(p, &f.params)?;
        validate_type(p, f.ret, f.span)?;
        i += 1;
    }
    Ok(())
}

fn check_function(p: &Program, f: &Function) -> (r: Result<(), Diagnostic>)
    ensures
        agrees(r, typing::func_ok(p@, function_view(*f))),
{
    let ghost ps = params_view(f.params@);
    let mut env: Vec<(String, Type)> = Vec::new();
    let mut i: usize = 0;
    assert(env_view(env@) =~= typing::param_env(p@, ps).take(0));
    while i < f.params.len()
        invariant
            0 <= i <= f.params@.len(),
            ps == params_view(f.params@),
            env_view(env@) == typing::param_env(p@, ps).take(i as int),
            typing::params_distinct(ps, 0) == typing::params_distinct(ps, i as int),
        decreases f.params@.len() - i,
    {
        let x = &f.params[i];
        assert(ps[i as int] == param_view(*x));
        if find_param(&f.params, x.name.as_str()) < i {
            let message = "引数 ".to_string().concat(x.name.as_str()).concat(" が重複しています");
            return Err(Diagnostic::coded("E0301", message, x.span));
        }
        let t = resolve_type(p, x.ty);
        declare(&mut env, &x.name, t);
        proof {
            let all = typing::param_env(p@, ps);
            assert(all.take(i + 1) =~= all.take(i as int).push(all[i as int]));
        }
        i += 1;
    }
    proof {
        let all = typing::param_env(p@, ps);
        assert(all.take(i as int) =~= all);
    }
    let checker = FnChecker { prog: p, ret: resolve_type(p, f.ret) };
    checker.check_block(&mut env, &f.body, false)
}

/// Checks a whole program: that names have definitions of their own, that every type that
/// is written exists, that there is a `main`, and that every function body has types that
/// fit. Answers with the first error.
pub fn check(program: &Program) -> (r: Result<(), Diagnostic>)
    ensures
        agrees(r, typing::checked(program@)),
{
    check_structs(program)?;
    check_enums(program)?;
    check_fields(program)?;
    check_payloads(program)?;
    check_funcs(program)?;
    if find_func(program, "main") >= program.funcs.len() {
        return Err(
            Diagnostic::error("エントリポイント `fn main()` が見つかりません".to_string()).with_code(
                "E0100",
            ),
        );
    }
    let mut i: usize = 0;
    while i < program.funcs.len()
        invariant
            0 <= i <= program.funcs@.len(),
            typing::checked(program@) == typing::bodies_ok(program@, i as int),
        decreases program.funcs@.len() - i,
    {
        assert(program@.funcs[i as int] == function_view(program.funcs@[i as int]));
        check_function(program, &program.funcs[i])?;
        i += 1;
    }
    Ok(())
}

} // verus!
