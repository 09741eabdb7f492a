//! The typing rules of Lumo: which programs are accepted, what type every expression has,
//! and which error a program that is not accepted is answered with.
//!
//! Variables are held in the order of their declaration; the innermost binding of a name is
//! the last one. A rule that answers with `Err` answers with the first error in the order
//! in which the program is read.
use crate::ast::{BinOp, UnOp};
use crate::builtins::Builtin;
use crate::span::Span;
use vstd::prelude::*;
#[allow(unused_imports)]
use crate::ast::{
    EnumDefV, EnumVariantV, ExprKindV, ExprV, FieldInitV, FunctionV, MatchArmV, ParamV, ProgramV,
    StmtKindV, StmtV, StructDefV,
};
#[allow(unused_imports)]
use crate::builtins::builtin_named;
#[allow(unused_imports)]
use crate::diagnostics::{diag, DiagV};
#[allow(unused_imports)]
use crate::text::dec_text;
#[allow(unused_imports)]
use crate::types::{ty_is_numeric, ty_is_reference, ty_name, Ty};

verus! {

// Names.

/// The index of the first structure of this name, or the number of structures.
pub open spec fn struct_index(p: ProgramV, name: Seq<char>, i: int) -> int
    decreases p.structs.len() - i,
{
    if !(0 <= i < p.structs.len()) || p.structs[i].name == name {
        i
    } else {
        struct_index(p, name, i + 1)
    }
}

/// The structure of this name.
pub open spec fn struct_named(p: ProgramV, name: Seq<char>) -> Option<StructDefV> {
    let i = struct_index(p, name, 0);
    if i < p.structs.len() {
        Some(p.structs[i])
    } else {
        None
    }
}

/// The index of the first sum type of this name, or the number of sum types.
pub open spec fn enum_index(p: ProgramV, name: Seq<char>, i: int) -> int
    decreases p.enums.len() - i,
{
    if !(0 <= i < p.enums.len()) || p.enums[i].name == name {
        i
    } else {
        enum_index(p, name, i + 1)
    }
}

/// The sum type of this name.
pub open spec fn enum_named(p: ProgramV, name: Seq<char>) -> Option<EnumDefV> {
    let i = enum_index(p, name, 0);
    if i < p.enums.len() {
        Some(p.enums[i])
    } else {
        None
    }
}

/// The index of the first variant of this name, or the number of variants.
pub open spec fn variant_index(vs: Seq<EnumVariantV>, name: Seq<char>, i: int) -> int
    decreases vs.len() - i,
{
    if !(0 <= i < vs.len()) || vs[i].name == name {
        i
    } else {
        variant_index(vs, name, i + 1)
    }
}

/// The index of the first sum type, from `i` on, that has a variant of this name, or the
/// number of sum types.
pub open spec fn variant_home(p: ProgramV, name: Seq<char>, i: int) -> int
    decreases p.enums.len() - i,
{
    if !(0 <= i < p.enums.len()) || variant_index(p.enums[i].variants, name, 0)
        < p.enums[i].variants.len() {
        i
    } else {
        variant_home(p, name, i + 1)
    }
}

/// The sum type that has a variant of this name, and the types of the variant's payload.
pub open spec fn variant_named(p: ProgramV, name: Seq<char>) -> Option<(Seq<char>, Seq<Ty>)> {
    let i = variant_home(p, name, 0);
    if i < p.enums.len() {
        let e = p.enums[i];
        Some((e.name, e.variants[variant_index(e.variants, name, 0)].fields))
    } else {
        None
    }
}

/// The index of the first function of this name, or the number of functions.
pub open spec fn func_index(p: ProgramV, name: Seq<char>, i: int) -> int
    decreases p.funcs.len() - i,
{
    if !(0 <= i < p.funcs.len()) || p.funcs[i].name == name {
        i
    } else {
        func_index(p, name, i + 1)
    }
}

/// The function of this name.
pub open spec fn func_named(p: ProgramV, name: Seq<char>) -> Option<FunctionV> {
    let i = func_index(p, name, 0);
    if i < p.funcs.len() {
        Some(p.funcs[i])
    } else {
        None
    }
}

/// The index of the first parameter or field of this name, or their number.
pub open spec fn param_index(ps: Seq<ParamV>, name: Seq<char>, i: int) -> int
    decreases ps.len() - i,
{
    if !(0 <= i < ps.len()) || ps[i].name == name {
        i
    } else {
        param_index(ps, name, i + 1)
    }
}

/// The type of the innermost variable of this name.
pub open spec fn lookup(env: Seq<(Seq<char>, Ty)>, name: Seq<char>) -> Option<Ty>
    decreases env.len(),
{
    if env.len() == 0 {
        None
    } else if env.last().0 == name {
        Some(env.last().1)
    } else {
        lookup(env.drop_last(), name)
    }
}

/// The names of types and built-in functions, which no definition can take.
pub open spec fn is_reserved(name: Seq<char>) -> bool {
    ||| name == "int"@
    ||| name == "float"@
    ||| name == "bool"@
    ||| name == "string"@
    ||| builtin_named(name) is Some
}

// Types.

/// The type that an annotation means: a name in it may be that of a sum type.
pub open spec fn resolve(p: ProgramV, t: Ty) -> Ty
    decreases t,
{
    match t {
        Ty::Struct(n) => if struct_named(p, n) is None && enum_named(p, n) is Some {
            Ty::Enum(n)
        } else {
            t
        },
        Ty::Array(e) => Ty::Array(Box::new(resolve(p, *e))),
        Ty::MapOf(v) => Ty::MapOf(Box::new(resolve(p, *v))),
        _ => t,
    }
}

/// The first name in a type, from the outside in, that no definition has.
pub open spec fn unknown_name(p: ProgramV, t: Ty) -> Option<Seq<char>>
    decreases t,
{
    match t {
        Ty::Struct(n) => if struct_named(p, n) is Some || enum_named(p, n) is Some {
            None
        } else {
            Some(n)
        },
        Ty::Enum(n) => if enum_named(p, n) is Some {
            None
        } else {
            Some(n)
        },
        Ty::Array(e) => unknown_name(p, *e),
        Ty::MapOf(v) => unknown_name(p, *v),
        _ => None,
    }
}

/// Every name in the type has a definition.
pub open spec fn valid_type(p: ProgramV, t: Ty, span: Span) -> Result<(), DiagV> {
    match unknown_name(p, t) {
        Some(n) => Err(diag("E0300"@, "不明な型: "@ + n, span)),
        None => Ok(()),
    }
}

/// A value of type `got` can stand where `want` is wanted: the types are the same, or the
/// value is `null` and `want` is a reference type.
pub open spec fn fits(want: Ty, got: Ty) -> bool {
    want == got || (got is Null && ty_is_reference(want))
}

pub open spec fn expect(want: Ty, got: Ty, span: Span) -> Result<(), DiagV> {
    if fits(want, got) {
        Ok(())
    } else {
        Err(
            diag(
                "E0200"@,
                "型が合いません: "@ + ty_name(want) + " が必要ですが "@ + ty_name(got)
                    + " が渡されました"@,
                span,
            ),
        )
    }
}

pub open spec fn numeric_required(got: Ty, span: Span) -> DiagV {
    diag(
        "E0200"@,
        "数値(int または float)が必要ですが "@ + ty_name(got) + " が使われています"@,
        span,
    )
}

/// Both operands are wanted to be of type `want`.
pub open spec fn both(want: Ty, lt: Ty, rt: Ty, ls: Span, rs: Span) -> Result<(), DiagV> {
    match expect(want, lt, ls) {
        Ok(_) => expect(want, rt, rs),
        Err(d) => Err(d),
    }
}

/// Both operands are wanted to be numbers of one type.
pub open spec fn both_numeric(lt: Ty, rt: Ty, ls: Span, rs: Span) -> Result<(), DiagV> {
    if ty_is_numeric(lt) {
        expect(lt, rt, rs)
    } else {
        Err(numeric_required(lt, ls))
    }
}

/// An expression at `span` that has the type `r` is wanted to be of type `want`.
pub open spec fn wanted(r: Result<Ty, DiagV>, want: Ty, span: Span) -> Result<(), DiagV> {
    match r {
        Ok(t) => expect(want, t, span),
        Err(d) => Err(d),
    }
}

/// `r` where the check before it succeeds.
pub open spec fn given<T>(check: Result<(), DiagV>, r: T) -> Result<T, DiagV> {
    match check {
        Ok(_) => Ok(r),
        Err(d) => Err(d),
    }
}

/// The type of an operator applied to operands of types `lt` and `rt`, which stand at `ls`
/// and `rs` in the expression at `span`.
pub open spec fn binary_type(op: BinOp, lt: Ty, rt: Ty, ls: Span, rs: Span, span: Span) -> Result<
    Ty,
    DiagV,
> {
    match op {
        BinOp::Add => if lt is Str {
            given(expect(Ty::Str, rt, rs), Ty::Str)
        } else {
            given(both_numeric(lt, rt, ls, rs), lt)
        },
        BinOp::Sub => given(both_numeric(lt, rt, ls, rs), lt),
        BinOp::Mul => given(both_numeric(lt, rt, ls, rs), lt),
        BinOp::Div => given(both_numeric(lt, rt, ls, rs), lt),
        BinOp::Mod => given(both(Ty::Int, lt, rt, ls, rs), Ty::Int),
        BinOp::Eq => equality_type(lt, rt, ls, rs, span),
        BinOp::Ne => equality_type(lt, rt, ls, rs, span),
        BinOp::Lt => order_type(lt, rt, ls, rs),
        BinOp::Le => order_type(lt, rt, ls, rs),
        BinOp::Gt => order_type(lt, rt, ls, rs),
        BinOp::Ge => order_type(lt, rt, ls, rs),
        BinOp::And => given(both(Ty::Bool, lt, rt, ls, rs), Ty::Bool),
        BinOp::Or => given(both(Ty::Bool, lt, rt, ls, rs), Ty::Bool),
        BinOp::BitAnd => given(both(Ty::Int, lt, rt, ls, rs), Ty::Int),
        BinOp::BitOr => given(both(Ty::Int, lt, rt, ls, rs), Ty::Int),
        BinOp::BitXor => given(both(Ty::Int, lt, rt, ls, rs), Ty::Int),
        BinOp::Shl => given(both(Ty::Int, lt, rt, ls, rs), Ty::Int),
        BinOp::Shr => given(both(Ty::Int, lt, rt, ls, rs), Ty::Int),
    }
}

/// `==` and `!=` compare numbers of one type, strings, or a reference with `null`.
pub open spec fn equality_type(lt: Ty, rt: Ty, ls: Span, rs: Span, span: Span) -> Result<
    Ty,
    DiagV,
> {
    if lt is Null || rt is Null {
        let other = if lt is Null {
            rt
        } else {
            lt
        };
        if other is Null || ty_is_reference(other) {
            Ok(Ty::Bool)
        } else {
            Err(
                diag(
                    "E0200"@,
                    "null と比較できるのは参照型(string/array/struct)だけですが "@ + ty_name(other)
                        + " が使われています"@,
                    span,
                ),
            )
        }
    } else {
        order_type(lt, rt, ls, rs)
    }
}

/// The ordering operators compare numbers of one type, or strings.
pub open spec fn order_type(lt: Ty, rt: Ty, ls: Span, rs: Span) -> Result<Ty, DiagV> {
    if lt is Str {
        given(expect(Ty::Str, rt, rs), Ty::Bool)
    } else {
        given(both_numeric(lt, rt, ls, rs), Ty::Bool)
    }
}

/// The type of a prefix operator applied to an operand of type `t`.
pub open spec fn unary_type(op: UnOp, t: Ty, span: Span) -> Result<Ty, DiagV> {
    match op {
        UnOp::Neg => if ty_is_numeric(t) {
            Ok(t)
        } else {
            Err(numeric_required(t, span))
        },
        UnOp::Not => given(expect(Ty::Bool, t, span), Ty::Bool),
        UnOp::BitNot => given(expect(Ty::Int, t, span), Ty::Int),
    }
}

// Built-in functions.

/// The array of strings.
pub open spec fn strings() -> Ty {
    Ty::Array(Box::new(Ty::Str))
}

/// The parameters and the result of a built-in function that has one type only.
pub open spec fn fixed_sig(b: Builtin) -> Option<(Seq<Ty>, Ty)> {
    let s = Ty::Str;
    let f = Ty::Float;
    if b == Builtin::ReadLine {
        Some((seq![], s))
    } else if b == Builtin::Chr {
        Some((seq![Ty::Int], s))
    } else if b == Builtin::Sqrt || b == Builtin::Floor || b == Builtin::Ceil {
        Some((seq![f], f))
    } else if b == Builtin::Pow {
        Some((seq![f, f], f))
    } else if b == Builtin::IsInt || b == Builtin::IsFloat {
        Some((seq![s], Ty::Bool))
    } else if b == Builtin::Substr {
        Some((seq![s, Ty::Int, Ty::Int], s))
    } else if b == Builtin::Split {
        Some((seq![s, s], strings()))
    } else if b == Builtin::Join {
        Some((seq![strings(), s], s))
    } else if b == Builtin::ToUpper || b == Builtin::ToLower || b == Builtin::Trim || b == Builtin::ReadFile {
        Some((seq![s], s))
    } else if b == Builtin::Find {
        Some((seq![s, s], Ty::Int))
    } else if b == Builtin::Contains || b == Builtin::StartsWith || b == Builtin::EndsWith || b == Builtin::WriteFile {
        Some((seq![s, s], Ty::Bool))
    } else if b == Builtin::Replace {
        Some((seq![s, s, s], s))
    } else if b == Builtin::Repeat {
        Some((seq![s, Ty::Int], s))
    } else {
        None
    }
}

/// The number of arguments of a built-in function that works on several types.
pub open spec fn generic_arity(b: Builtin) -> nat {
    match b {
        Builtin::Push | Builtin::Min | Builtin::Max | Builtin::Has | Builtin::Delete => 2,
        _ => 1,
    }
}

/// What the first argument of such a function settles: the type of its second argument
/// where it takes one, and of its result.
pub ghost struct Settled {
    pub second: Ty,
    pub result: Ty,
}

/// The error of a first argument of a type that the function does not work on.
pub open spec fn unsuited(name: Seq<char>, wants: Seq<char>, t: Ty, span: Span) -> DiagV {
    diag("E0200"@, name + "() は"@ + wants + ty_name(t) + " が渡されました"@, span)
}

/// What a first argument of type `t` at `span` settles for the function, which is called
/// `name`.
pub open spec fn generic_rule(b: Builtin, name: Seq<char>, t: Ty, span: Span) -> Result<Settled, DiagV> {
    if b == Builtin::Int || b == Builtin::Float {
        if ty_is_numeric(t) || t is Str {
            Ok(
                Settled {
                    second: Ty::Null,
                    result: if b == Builtin::Int {
                        Ty::Int
                    } else {
                        Ty::Float
                    },
                },
            )
        } else {
            Err(unsuited(name, "数値(int または float)か string を変換しますが "@, t, span))
        }
    } else if b == Builtin::Len {
        if t is Str || t is Array || t is MapOf {
            Ok(Settled { second: Ty::Null, result: Ty::Int })
        } else {
            Err(unsuited(name, " string か配列か map に使えますが "@, t, span))
        }
    } else if b == Builtin::Str {
        if ty_is_numeric(t) || t is Bool || t is Str {
            Ok(Settled { second: Ty::Null, result: Ty::Str })
        } else {
            Err(unsuited(name, " int/float/bool/string を変換しますが "@, t, span))
        }
    } else if b == Builtin::Abs || b == Builtin::Min || b == Builtin::Max {
        if ty_is_numeric(t) {
            Ok(Settled { second: t, result: t })
        } else {
            Err(numeric_required(t, span))
        }
    } else if b == Builtin::Push || b == Builtin::Pop || b == Builtin::Reversed || b == Builtin::Sorted {
        match t {
            Ty::Array(e) => if b == Builtin::Push {
                Ok(Settled { second: *e, result: t })
            } else if b == Builtin::Pop {
                Ok(Settled { second: Ty::Null, result: *e })
            } else if b == Builtin::Reversed || ty_is_numeric(*e) || *e is Str {
                Ok(Settled { second: Ty::Null, result: t })
            } else {
                Err(unsuited(name, " int/float/string の配列に使えますが "@, t, span))
            },
            _ => Err(unsuited(name, "配列に使えますが "@, t, span)),
        }
    } else {
        match t {
            Ty::MapOf(_) => if b == Builtin::Has {
                Ok(Settled { second: Ty::Str, result: Ty::Bool })
            } else if b == Builtin::Delete {
                Ok(Settled { second: Ty::Str, result: Ty::Int })
            } else {
                Ok(Settled { second: Ty::Null, result: strings() })
            },
            _ => Err(unsuited(name, " map に使えますが "@, t, span)),
        }
    }
}

/// The error of a built-in function called with the wrong number of arguments.
pub open spec fn builtin_arity_error(name: Seq<char>, wanted: nat, given: nat, span: Span) -> DiagV {
    if wanted == 0 {
        diag(
            "E0104"@,
            name + "() は引数を取りませんが "@ + dec_text(given) + " 個渡されました"@,
            span,
        )
    } else {
        diag(
            "E0104"@,
            name + "() は引数"@ + dec_text(wanted) + "個ですが "@ + dec_text(given)
                + " 個渡されました"@,
            span,
        )
    }
}

/// The error of a function called with the wrong number of arguments.
pub open spec fn call_arity_error(name: Seq<char>, wanted: nat, given: nat, span: Span) -> DiagV {
    diag(
        "E0104"@,
        "関数 "@ + name + " は引数 "@ + dec_text(wanted) + " 個ですが "@ + dec_text(given)
            + " 個渡されました"@,
        span,
    )
}

/// The error of a variant built or taken apart with the wrong number of values.
pub open spec fn variant_arity_error(
    name: Seq<char>,
    wanted: nat,
    given: nat,
    span: Span,
) -> DiagV {
    diag(
        "E0104"@,
        "列挙子 "@ + name + " は値 "@ + dec_text(wanted) + " 個ですが "@ + dec_text(given)
            + " 個渡されました"@,
        span,
    )
}

// Expressions.

/// The types of parameters, with the names in them resolved.
pub open spec fn param_types(p: ProgramV, ps: Seq<ParamV>) -> Seq<Ty> {
    Seq::new(ps.len(), |i: int| resolve(p, ps[i].ty))
}

/// The types, with the names in them resolved.
pub open spec fn resolve_all(p: ProgramV, ts: Seq<Ty>) -> Seq<Ty> {
    Seq::new(ts.len(), |i: int| resolve(p, ts[i]))
}

/// The names, separated by commas.
pub open spec fn listed(names: Seq<Seq<char>>) -> Seq<char>
    decreases names.len(),
{
    if names.len() == 0 {
        Seq::empty()
    } else if names.len() == 1 {
        names[0]
    } else {
        listed(names.drop_last()) + ", "@ + names.last()
    }
}

/// One of the first `n` fields of a literal has this name.
pub open spec fn given_before(inits: Seq<FieldInitV>, name: Seq<char>, n: int) -> bool {
    exists|j: int| 0 <= j < n && (#[trigger] inits[j]).name == name
}

/// The names of the fields from `i` on that a literal does not give, in order.
pub open spec fn missing_fields(fields: Seq<ParamV>, inits: Seq<FieldInitV>, i: int) -> Seq<
    Seq<char>,
>
    decreases fields.len() - i,
{
    if !(0 <= i < fields.len()) {
        Seq::empty()
    } else if given_before(inits, fields[i].name, inits.len() as int) {
        missing_fields(fields, inits, i + 1)
    } else {
        seq![fields[i].name] + missing_fields(fields, inits, i + 1)
    }
}

/// The type of an expression where the variables are `env`.
pub open spec fn type_of(p: ProgramV, env: Seq<(Seq<char>, Ty)>, e: ExprV) -> Result<Ty, DiagV>
    decreases e, 0int,
{
    match e.kind {
        ExprKindV::Int(_) => Ok(Ty::Int),
        ExprKindV::Float(_) => Ok(Ty::Float),
        ExprKindV::Bool(_) => Ok(Ty::Bool),
        ExprKindV::Str(_) => Ok(Ty::Str),
        ExprKindV::Null => Ok(Ty::Null),
        ExprKindV::Var(name) => match variant_named(p, name) {
            Some((owner, payload)) => if payload.len() == 0 {
                Ok(Ty::Enum(owner))
            } else {
                Err(variant_arity_error(name, payload.len(), 0, e.span))
            },
            None => match lookup(env, name) {
                Some(t) => Ok(t),
                None => Err(diag("E0101"@, "未定義の変数: "@ + name, e.span)),
            },
        },
        ExprKindV::Unary { op, expr } => match type_of(p, env, *expr) {
            Ok(t) => unary_type(op, t, expr.span),
            Err(d) => Err(d),
        },
        ExprKindV::Binary { op, lhs, rhs } => match type_of(p, env, *lhs) {
            Ok(lt) => match type_of(p, env, *rhs) {
                Ok(rt) => binary_type(op, lt, rt, lhs.span, rhs.span, e.span),
                Err(d) => Err(d),
            },
            Err(d) => Err(d),
        },
        ExprKindV::Call { name, args } => call_type(p, env, name, args, e.span),
        ExprKindV::Array(elems) => if elems.len() == 0 {
            Err(
                diag(
                    "E0206"@,
                    "空の配列リテラルは書けません（要素型を推論できません）"@,
                    e.span,
                ),
            )
        } else {
            match type_of(p, env, elems[0]) {
                Ok(t) => if t is Null {
                    Err(
                        diag(
                            "E0206"@,
                            "配列の要素の型を null だけからは推論できません"@,
                            elems[0].span,
                        ),
                    )
                } else {
                    given(all_fit(p, env, t, elems, 1), Ty::Array(Box::new(t)))
                },
                Err(d) => Err(d),
            }
        },
        ExprKindV::Index { array, index } => match type_of(p, env, *array) {
            Ok(at) => match type_of(p, env, *index) {
                Ok(it) => index_type(at, it, array.span, index.span),
                Err(d) => Err(d),
            },
            Err(d) => Err(d),
        },
        ExprKindV::Slice { seq, lo, hi } => match type_of(p, env, *seq) {
            Ok(t) => match bound_ok(p, env, lo) {
                Ok(_) => match bound_ok(p, env, hi) {
                    Ok(_) => if t is Array || t is Str {
                        Ok(t)
                    } else {
                        Err(
                            diag(
                                "E0205"@,
                                "スライスできるのは配列か文字列だけですが "@ + ty_name(t)
                                    + " が使われています"@,
                                seq.span,
                            ),
                        )
                    },
                    Err(d) => Err(d),
                },
                Err(d) => Err(d),
            },
            Err(d) => Err(d),
        },
        ExprKindV::StructLit { name, fields } => match struct_named(p, name) {
            None => Err(diag("E0303"@, "不明な構造体: "@ + name, e.span)),
            Some(def) => match inits_fit(p, env, def, fields, 0) {
                Ok(_) => if fields.len() == def.fields.len() {
                    Ok(Ty::Struct(name))
                } else {
                    Err(
                        diag(
                            "E0307"@,
                            "構造体 "@ + name + " のフィールドが足りません: "@ + listed(
                                missing_fields(def.fields, fields, 0),
                            ),
                            e.span,
                        ),
                    )
                },
                Err(d) => Err(d),
            },
        },
        ExprKindV::MapLit(pairs) => if pairs.len() == 0 {
            Err(
                diag("E0206"@, "空の map リテラルは書けません（値の型を推論できません）"@, e.span),
            )
        } else {
            match wanted(type_of(p, env, pairs[0].0), Ty::Str, pairs[0].0.span) {
                Ok(_) => match type_of(p, env, pairs[0].1) {
                    Ok(t) => if t is Null {
                        Err(
                            diag(
                                "E0206"@,
                                "map の値の型を null だけからは推論できません"@,
                                pairs[0].1.span,
                            ),
                        )
                    } else {
                        given(pairs_fit(p, env, t, pairs, 1), Ty::MapOf(Box::new(t)))
                    },
                    Err(d) => Err(d),
                },
                Err(d) => Err(d),
            }
        },
        ExprKindV::Field { obj, field } => match type_of(p, env, *obj) {
            Ok(t) => field_type(p, t, field, e.span, obj.span),
            Err(d) => Err(d),
        },
    }
}

/// The type of a field of a value of type `t`, which stands at `obj_span`.
pub open spec fn field_type(
    p: ProgramV,
    t: Ty,
    field: Seq<char>,
    span: Span,
    obj_span: Span,
) -> Result<Ty, DiagV> {
    match t {
        Ty::Struct(name) => match struct_named(p, name) {
            Some(def) => {
                let i = param_index(def.fields, field, 0);
                if i < def.fields.len() {
                    Ok(resolve(p, def.fields[i].ty))
                } else {
                    Err(no_field(name, field, span))
                }
            },
            None => Err(no_field(name, field, span)),
        },
        _ => Err(
            diag(
                "E0305"@,
                "フィールドアクセスできるのは構造体だけですが "@ + ty_name(t)
                    + " が使われています"@,
                obj_span,
            ),
        ),
    }
}

/// The error of a field that a structure does not have.
pub open spec fn no_field(name: Seq<char>, field: Seq<char>, span: Span) -> DiagV {
    diag("E0306"@, "構造体 "@ + name + " にフィールド "@ + field + " はありません"@, span)
}

/// The type of an element. Arrays and strings are indexed by integers, maps by strings.
pub open spec fn index_type(at: Ty, it: Ty, array_span: Span, index_span: Span) -> Result<
    Ty,
    DiagV,
> {
    match at {
        Ty::MapOf(v) => given(expect(Ty::Str, it, index_span), *v),
        _ => match expect(Ty::Int, it, index_span) {
            Err(d) => Err(d),
            Ok(_) => match at {
                Ty::Array(e) => Ok(*e),
                Ty::Str => Ok(Ty::Int),
                _ => Err(
                    diag(
                        "E0205"@,
                        "添字でアクセスできるのは配列か文字列か map だけですが "@ + ty_name(at)
                            + " が使われています"@,
                        array_span,
                    ),
                ),
            },
        },
    }
}

/// A bound of a slice is left out, or an integer.
pub open spec fn bound_ok(
    p: ProgramV,
    env: Seq<(Seq<char>, Ty)>,
    b: Option<Box<ExprV>>,
) -> Result<(), DiagV>
    decreases b, 0int,
{
    match b {
        None => Ok(()),
        Some(e) => wanted(type_of(p, env, *e), Ty::Int, e.span),
    }
}

/// The expressions from `i` on fit the type `t`.
pub open spec fn all_fit(
    p: ProgramV,
    env: Seq<(Seq<char>, Ty)>,
    t: Ty,
    es: Seq<ExprV>,
    i: int,
) -> Result<(), DiagV>
    decreases es, es.len() - i,
{
    if !(0 <= i < es.len()) {
        Ok(())
    } else {
        match wanted(type_of(p, env, es[i]), t, es[i].span) {
            Ok(_) => all_fit(p, env, t, es, i + 1),
            Err(d) => Err(d),
        }
    }
}

/// The arguments from `i` on fit the parameters `ts`.
pub open spec fn args_fit(
    p: ProgramV,
    env: Seq<(Seq<char>, Ty)>,
    ts: Seq<Ty>,
    es: Seq<ExprV>,
    i: int,
) -> Result<(), DiagV>
    decreases es, es.len() - i,
{
    if !(0 <= i < es.len()) {
        Ok(())
    } else {
        match wanted(type_of(p, env, es[i]), ts[i], es[i].span) {
            Ok(_) => args_fit(p, env, ts, es, i + 1),
            Err(d) => Err(d),
        }
    }
}

/// The entries of a map literal from `i` on have strings as keys and values that fit `t`.
pub open spec fn pairs_fit(
    p: ProgramV,
    env: Seq<(Seq<char>, Ty)>,
    t: Ty,
    es: Seq<(ExprV, ExprV)>,
    i: int,
) -> Result<(), DiagV>
    decreases es, es.len() - i,
{
    if !(0 <= i < es.len()) {
        Ok(())
    } else {
        match wanted(type_of(p, env, es[i].0), Ty::Str, es[i].0.span) {
            Ok(_) => match wanted(type_of(p, env, es[i].1), t, es[i].1.span) {
                Ok(_) => pairs_fit(p, env, t, es, i + 1),
                Err(d) => Err(d),
            },
            Err(d) => Err(d),
        }
    }
}

/// The fields of a literal from `i` on are fields of the structure, none of them is given
/// twice, and their values fit.
pub open spec fn inits_fit(
    p: ProgramV,
    env: Seq<(Seq<char>, Ty)>,
    def: StructDefV,
    inits: Seq<FieldInitV>,
    i: int,
) -> Result<(), DiagV>
    decreases inits, inits.len() - i,
{
    if !(0 <= i < inits.len()) {
        Ok(())
    } else {
        let f = inits[i];
        let k = param_index(def.fields, f.name, 0);
        if k >= def.fields.len() {
            Err(no_field(def.name, f.name, f.span))
        } else if given_before(inits, f.name, i) {
            Err(diag("E0307"@, "フィールド "@ + f.name + " が二重に指定されています"@, f.span))
        } else {
            match wanted(
                type_of(p, env, f.value),
                resolve(p, def.fields[k].ty),
                f.value.span,
            ) {
                Ok(_) => inits_fit(p, env, def, inits, i + 1),
                Err(d) => Err(d),
            }
        }
    }
}

/// The type of a call: of a built-in function, of a variant with its payload, or of a
/// function of the program.
pub open spec fn call_type(
    p: ProgramV,
    env: Seq<(Seq<char>, Ty)>,
    name: Seq<char>,
    args: Seq<ExprV>,
    span: Span,
) -> Result<Ty, DiagV>
    decreases args, args.len() + 1,
{
    let n = args.len();
    match builtin_named(name) {
        Some(b) => match fixed_sig(b) {
            Some((params, ret)) => if params.len() != n {
                Err(builtin_arity_error(name, params.len(), n, span))
            } else {
                given(args_fit(p, env, params, args, 0), ret)
            },
            None => if generic_arity(b) != n {
                Err(builtin_arity_error(name, generic_arity(b), n, span))
            } else {
                match type_of(p, env, args[0]) {
                    Ok(t) => match generic_rule(b, name, t, args[0].span) {
                        Ok(s) => if n == 1 {
                            Ok(s.result)
                        } else {
                            given(
                                wanted(type_of(p, env, args[1]), s.second, args[1].span),
                                s.result,
                            )
                        },
                        Err(d) => Err(d),
                    },
                    Err(d) => Err(d),
                }
            },
        },
        None => match variant_named(p, name) {
            Some((owner, payload)) => if payload.len() != n {
                Err(variant_arity_error(name, payload.len(), n, span))
            } else {
                given(args_fit(p, env, resolve_all(p, payload), args, 0), Ty::Enum(owner))
            },
            None => match func_named(p, name) {
                Some(f) => if f.params.len() != n {
                    Err(call_arity_error(name, f.params.len(), n, span))
                } else {
                    given(
                        args_fit(p, env, param_types(p, f.params), args, 0),
                        resolve(p, f.ret),
                    )
                },
                None => Err(diag("E0102"@, "未定義の関数: "@ + name, span)),
            },
        },
    }
}

// Statements.

/// Where a statement stands: the program, the type that the function returns, and whether
/// a loop is around it.
pub ghost struct Place {
    pub prog: ProgramV,
    pub ret: Ty,
    pub in_loop: bool,
}

/// The place inside a loop.
pub open spec fn looped(cx: Place) -> Place {
    Place { in_loop: true, ..cx }
}

/// An empty literal that is given its type by the annotation `t`.
pub open spec fn is_empty_literal(e: ExprV, t: Ty) -> bool {
    match e.kind {
        ExprKindV::Array(elems) => elems.len() == 0 && t is Array,
        ExprKindV::MapLit(pairs) => pairs.len() == 0 && t is MapOf,
        _ => false,
    }
}

/// The type of the variable that a `let` declares.
pub open spec fn let_type(
    p: ProgramV,
    env: Seq<(Seq<char>, Ty)>,
    ty: Option<Ty>,
    value: ExprV,
    span: Span,
) -> Result<Ty, DiagV> {
    match ty {
        Some(a) => {
            let want = resolve(p, a);
            if is_empty_literal(value, want) {
                given(valid_type(p, a, span), want)
            } else {
                match type_of(p, env, value) {
                    Ok(t) => match valid_type(p, a, span) {
                        Ok(_) => if fits(want, t) {
                            Ok(want)
                        } else {
                            Err(
                                diag(
                                    "E0200"@,
                                    ty_name(want) + " 型の変数に "@ + ty_name(t)
                                        + " 型を入れようとしました"@,
                                    value.span,
                                ),
                            )
                        },
                        Err(d) => Err(d),
                    },
                    Err(d) => Err(d),
                }
            }
        },
        None => match type_of(p, env, value) {
            Ok(t) => if t is Null {
                Err(
                    diag(
                        "E0208"@,
                        "null だけからは変数の型を推論できません（型注釈 `let x: T = null` を使ってください）"@,
                        value.span,
                    ),
                )
            } else {
                Ok(t)
            },
            Err(d) => Err(d),
        },
    }
}

/// The type of the target of an assignment: a variable, an element of an array or a map,
/// or a field. Strings cannot be changed.
pub open spec fn target_type(p: ProgramV, env: Seq<(Seq<char>, Ty)>, target: ExprV) -> Result<
    Ty,
    DiagV,
> {
    let no_target = diag(
        "E0204"@,
        "代入先が変数・配列要素・フィールドのいずれでもありません"@,
        target.span,
    );
    match target.kind {
        ExprKindV::Index { array, .. } => match type_of(p, env, *array) {
            Ok(Ty::Str) => Err(
                diag(
                    "E0207"@,
                    "文字列はイミュータブルです（要素を書き換えられません）"@,
                    target.span,
                ),
            ),
            Ok(_) => type_of(p, env, target),
            Err(d) => Err(d),
        },
        ExprKindV::Var(name) => if variant_named(p, name) is Some {
            Err(no_target)
        } else {
            type_of(p, env, target)
        },
        ExprKindV::Field { .. } => type_of(p, env, target),
        _ => Err(no_target),
    }
}

/// The value fits the target of the assignment at `span`.
pub open spec fn assign_ok(
    p: ProgramV,
    env: Seq<(Seq<char>, Ty)>,
    target: ExprV,
    value: ExprV,
    span: Span,
) -> Result<(), DiagV> {
    match target_type(p, env, target) {
        Ok(want) => match type_of(p, env, value) {
            Ok(t) => if fits(want, t) {
                Ok(())
            } else {
                Err(
                    diag(
                        "E0200"@,
                        "代入先は "@ + ty_name(want) + " 型ですが "@ + ty_name(t)
                            + " 型を代入しようとしました"@,
                        span,
                    ),
                )
            },
            Err(d) => Err(d),
        },
        Err(d) => Err(d),
    }
}

/// The expression can be printed.
pub open spec fn print_ok(p: ProgramV, env: Seq<(Seq<char>, Ty)>, e: ExprV) -> Result<(), DiagV> {
    match type_of(p, env, e) {
        Ok(t) => if ty_is_numeric(t) || t is Bool || t is Str {
            Ok(())
        } else {
            Err(
                diag(
                    "E0200"@,
                    "print できるのは int/bool/float/string です（"@ + ty_name(t) + " は不可）"@,
                    e.span,
                ),
            )
        },
        Err(d) => Err(d),
    }
}

/// The function can return the expression.
pub open spec fn return_ok(cx: Place, env: Seq<(Seq<char>, Ty)>, e: ExprV) -> Result<(), DiagV> {
    match type_of(cx.prog, env, e) {
        Ok(t) => if fits(cx.ret, t) {
            Ok(())
        } else {
            Err(
                diag(
                    "E0202"@,
                    "関数は "@ + ty_name(cx.ret) + " を返しますが "@ + ty_name(t)
                        + " を返そうとしています"@,
                    e.span,
                ),
            )
        },
        Err(d) => Err(d),
    }
}

/// The expression is a condition.
pub open spec fn cond_ok(p: ProgramV, env: Seq<(Seq<char>, Ty)>, e: ExprV) -> Result<(), DiagV> {
    match type_of(p, env, e) {
        Ok(t) => if t is Bool {
            Ok(())
        } else {
            Err(
                diag(
                    "E0201"@,
                    "条件は bool である必要がありますが "@ + ty_name(t) + " が使われています"@,
                    e.span,
                ),
            )
        },
        Err(d) => Err(d),
    }
}

/// The type of the variable of a loop over a collection.
pub open spec fn item_type(p: ProgramV, env: Seq<(Seq<char>, Ty)>, iter: ExprV) -> Result<
    Ty,
    DiagV,
> {
    match type_of(p, env, iter) {
        Ok(t) => match t {
            Ty::Array(e) => Ok(*e),
            Ty::MapOf(_) => Ok(Ty::Str),
            _ => Err(
                diag(
                    "E0200"@,
                    "for-in で回せるのは配列か map だけですが "@ + ty_name(t)
                        + " が使われています"@,
                    iter.span,
                ),
            ),
        },
        Err(d) => Err(d),
    }
}

/// The sum type that a `match` takes apart.
pub open spec fn scrut_enum(p: ProgramV, env: Seq<(Seq<char>, Ty)>, e: ExprV) -> Result<
    EnumDefV,
    DiagV,
> {
    match type_of(p, env, e) {
        Ok(t) => {
            let bad = diag(
                "E0200"@,
                "match できるのは enum だけですが "@ + ty_name(t) + " が使われています"@,
                e.span,
            );
            match t {
                Ty::Enum(n) => match enum_named(p, n) {
                    Some(def) => Ok(def),
                    None => Err(bad),
                },
                _ => Err(bad),
            }
        },
        Err(d) => Err(d),
    }
}

/// One of the first `n` arms is for the variant of this name.
pub open spec fn covered(arms: Seq<MatchArmV>, name: Seq<char>, n: int) -> bool {
    exists|j: int| 0 <= j < n && !(#[trigger] arms[j]).wildcard && arms[j].variant == name
}

/// One of the first `n` arms takes everything.
pub open spec fn caught(arms: Seq<MatchArmV>, n: int) -> bool {
    exists|j: int| 0 <= j < n && (#[trigger] arms[j]).wildcard
}

/// The names of the variants from `i` on that none of the first `n` arms is for.
pub open spec fn missing_variants(
    vs: Seq<EnumVariantV>,
    arms: Seq<MatchArmV>,
    n: int,
    i: int,
) -> Seq<Seq<char>>
    decreases vs.len() - i,
{
    if !(0 <= i < vs.len()) {
        Seq::empty()
    } else if covered(arms, vs[i].name, n) {
        missing_variants(vs, arms, n, i + 1)
    } else {
        seq![vs[i].name] + missing_variants(vs, arms, n, i + 1)
    }
}

/// The pattern of arm `i` names a variant of the sum type with as many names as its
/// payload has values, or is `_`, and the arms before it do not leave it without a use.
pub open spec fn pattern_ok(def: EnumDefV, arms: Seq<MatchArmV>, i: int) -> Result<(), DiagV> {
    let arm = arms[i];
    let k = variant_index(def.variants, arm.variant, 0);
    if !arm.wildcard && k >= def.variants.len() {
        Err(
            diag(
                "E0308"@,
                "enum "@ + def.name + " に列挙子 "@ + arm.variant + " はありません"@,
                arm.span,
            ),
        )
    } else if caught(arms, i) || (if arm.wildcard {
        missing_variants(def.variants, arms, i, 0).len() == 0
    } else {
        covered(arms, arm.variant, i)
    }) {
        Err(diag("E0210"@, "到達できないアームです"@, arm.span))
    } else if !arm.wildcard && arm.bindings.len() != def.variants[k].fields.len() {
        Err(
            variant_arity_error(
                arm.variant,
                def.variants[k].fields.len(),
                arm.bindings.len(),
                arm.span,
            ),
        )
    } else {
        Ok(())
    }
}

/// The variables of an arm: those around it, and the names for the payload.
pub open spec fn arm_env(
    p: ProgramV,
    env: Seq<(Seq<char>, Ty)>,
    def: EnumDefV,
    arm: MatchArmV,
) -> Seq<(Seq<char>, Ty)> {
    if arm.wildcard {
        env
    } else {
        let fields = def.variants[variant_index(def.variants, arm.variant, 0)].fields;
        env + Seq::new(
            arm.bindings.len(),
            |j: int| (arm.bindings[j], resolve(p, fields[j])),
        )
    }
}

/// The arms take apart every value.
pub open spec fn exhaustive(def: EnumDefV, arms: Seq<MatchArmV>, span: Span) -> Result<(), DiagV> {
    let n = arms.len() as int;
    let missing = missing_variants(def.variants, arms, n, 0);
    if caught(arms, n) || missing.len() == 0 {
        Ok(())
    } else {
        Err(
            diag(
                "E0209"@,
                "match が網羅的ではありません。足りない列挙子: "@ + listed(missing),
                span,
            ),
        )
    }
}

/// The variables after a statement, where those before it are `env`.
pub open spec fn check_stmt(cx: Place, env: Seq<(Seq<char>, Ty)>, s: StmtV) -> Result<
    Seq<(Seq<char>, Ty)>,
    DiagV,
>
    decreases s, 0int,
{
    let p = cx.prog;
    match s.kind {
        StmtKindV::Let { name, ty, value } => match let_type(p, env, ty, value, s.span) {
            Ok(t) => Ok(env.push((name, t))),
            Err(d) => Err(d),
        },
        StmtKindV::Assign { target, value } => given(
            assign_ok(p, env, target, value, s.span),
            env,
        ),
        StmtKindV::Print(e) => given(print_ok(p, env, e), env),
        StmtKindV::Return(e) => given(return_ok(cx, env, e), env),
        StmtKindV::ExprStmt(e) => match type_of(p, env, e) {
            Ok(_) => Ok(env),
            Err(d) => Err(d),
        },
        StmtKindV::If { cond, then_body, else_body } => match cond_ok(p, env, cond) {
            Ok(_) => match check_stmts(cx, env, then_body, 0) {
                Ok(_) => match check_stmts(cx, env, else_body, 0) {
                    Ok(_) => Ok(env),
                    Err(d) => Err(d),
                },
                Err(d) => Err(d),
            },
            Err(d) => Err(d),
        },
        StmtKindV::While { cond, body } => match cond_ok(p, env, cond) {
            Ok(_) => match check_stmts(looped(cx), env, body, 0) {
                Ok(_) => Ok(env),
                Err(d) => Err(d),
            },
            Err(d) => Err(d),
        },
        StmtKindV::For { init, cond, step, body } => match check_opt(cx, env, init) {
            Ok(inner) => match cond_ok(p, inner, cond) {
                Ok(_) => match check_stmts(looped(cx), inner, body, 0) {
                    Ok(_) => match check_opt(cx, inner, step) {
                        Ok(_) => Ok(env),
                        Err(d) => Err(d),
                    },
                    Err(d) => Err(d),
                },
                Err(d) => Err(d),
            },
            Err(d) => Err(d),
        },
        StmtKindV::ForIn { var, iter, body } => match item_type(p, env, iter) {
            Ok(t) => match check_stmts(looped(cx), env.push((var, t)), body, 0) {
                Ok(_) => Ok(env),
                Err(d) => Err(d),
            },
            Err(d) => Err(d),
        },
        StmtKindV::Match { scrut, arms } => match scrut_enum(p, env, scrut) {
            Ok(def) => match check_arms(cx, env, def, arms, 0) {
                Ok(_) => given(exhaustive(def, arms, s.span), env),
                Err(d) => Err(d),
            },
            Err(d) => Err(d),
        },
        StmtKindV::Break => if cx.in_loop {
            Ok(env)
        } else {
            Err(diag("E0203"@, "break はループの外では使えません"@, s.span))
        },
        StmtKindV::Continue => if cx.in_loop {
            Ok(env)
        } else {
            Err(diag("E0203"@, "continue はループの外では使えません"@, s.span))
        },
    }
}

/// The variables after a statement that may be left out.
pub open spec fn check_opt(
    cx: Place,
    env: Seq<(Seq<char>, Ty)>,
    s: Option<Box<StmtV>>,
) -> Result<Seq<(Seq<char>, Ty)>, DiagV>
    decreases s, 0int,
{
    match s {
        Some(s) => check_stmt(cx, env, *s),
        None => Ok(env),
    }
}

/// The variables after the statements from `i` on.
pub open spec fn check_stmts(
    cx: Place,
    env: Seq<(Seq<char>, Ty)>,
    ss: Seq<StmtV>,
    i: int,
) -> Result<Seq<(Seq<char>, Ty)>, DiagV>
    decreases ss, ss.len() - i,
{
    if !(0 <= i < ss.len()) {
        Ok(env)
    } else {
        match check_stmt(cx, env, ss[i]) {
            Ok(next) => check_stmts(cx, next, ss, i + 1),
            Err(d) => Err(d),
        }
    }
}

/// The arms of a `match` from `i` on.
pub open spec fn check_arms(
    cx: Place,
    env: Seq<(Seq<char>, Ty)>,
    def: EnumDefV,
    arms: Seq<MatchArmV>,
    i: int,
) -> Result<(), DiagV>
    decreases arms, arms.len() - i,
{
    if !(0 <= i < arms.len()) {
        Ok(())
    } else {
        match pattern_ok(def, arms, i) {
            Ok(_) => match check_stmts(cx, arm_env(cx.prog, env, def, arms[i]), arms[i].body, 0) {
                Ok(_) => check_arms(cx, env, def, arms, i + 1),
                Err(d) => Err(d),
            },
            Err(d) => Err(d),
        }
    }
}

// Programs.

/// No two of the fields from `i` on, and none of them and those before, have one name.
pub open spec fn fields_distinct(fields: Seq<ParamV>, i: int) -> Result<(), DiagV>
    decreases fields.len() - i,
{
    if !(0 <= i < fields.len()) {
        Ok(())
    } else if param_index(fields, fields[i].name, 0) < i {
        Err(
            diag("E0307"@, "フィールド "@ + fields[i].name + " が重複しています"@, fields[i].span),
        )
    } else {
        fields_distinct(fields, i + 1)
    }
}

/// The structures from `i` on have names of their own, and fields with names of their own.
pub open spec fn structs_ok(p: ProgramV, i: int) -> Result<(), DiagV>
    decreases p.structs.len() - i,
{
    if !(0 <= i < p.structs.len()) {
        Ok(())
    } else {
        let s = p.structs[i];
        if is_reserved(s.name) {
            Err(diag("E0302"@, s.name + " は予約語なので構造体名に使えません"@, s.span))
        } else if struct_index(p, s.name, 0) < i {
            Err(diag("E0304"@, "構造体 "@ + s.name + " が二重に定義されています"@, s.span))
        } else {
            match fields_distinct(s.fields, 0) {
                Ok(_) => structs_ok(p, i + 1),
                Err(d) => Err(d),
            }
        }
    }
}

/// The variants of sum type `i` from `j` on have names that no variant before them has.
pub open spec fn variants_ok(p: ProgramV, i: int, j: int) -> Result<(), DiagV>
    decreases p.enums[i].variants.len() - j,
{
    let vs = p.enums[i].variants;
    if !(0 <= j < vs.len()) {
        Ok(())
    } else {
        let v = vs[j];
        if is_reserved(v.name) {
            Err(diag("E0302"@, v.name + " は予約語なので列挙子名に使えません"@, v.span))
        } else if variant_index(vs, v.name, 0) < j || variant_home(p, v.name, 0) < i {
            Err(diag("E0304"@, "列挙子 "@ + v.name + " が二重に定義されています"@, v.span))
        } else {
            variants_ok(p, i, j + 1)
        }
    }
}

/// The sum types from `i` on have names of their own, and variants with names of their own.
pub open spec fn enums_ok(p: ProgramV, i: int) -> Result<(), DiagV>
    decreases p.enums.len() - i,
{
    if !(0 <= i < p.enums.len()) {
        Ok(())
    } else {
        let e = p.enums[i];
        if is_reserved(e.name) {
            Err(diag("E0302"@, e.name + " は予約語なので enum 名に使えません"@, e.span))
        } else if struct_named(p, e.name) is Some || enum_index(p, e.name, 0) < i {
            Err(diag("E0304"@, "型 "@ + e.name + " が二重に定義されています"@, e.span))
        } else {
            match variants_ok(p, i, 0) {
                Ok(_) => enums_ok(p, i + 1),
                Err(d) => Err(d),
            }
        }
    }
}

/// The types of the fields or parameters from `i` on have definitions.
pub open spec fn params_valid(p: ProgramV, ps: Seq<ParamV>, i: int) -> Result<(), DiagV>
    decreases ps.len() - i,
{
    if !(0 <= i < ps.len()) {
        Ok(())
    } else {
        match valid_type(p, ps[i].ty, ps[i].span) {
            Ok(_) => params_valid(p, ps, i + 1),
            Err(d) => Err(d),
        }
    }
}

/// The types of the fields of the structures from `i` on have definitions.
pub open spec fn fields_valid(p: ProgramV, i: int) -> Result<(), DiagV>
    decreases p.structs.len() - i,
{
    if !(0 <= i < p.structs.len()) {
        Ok(())
    } else {
        match params_valid(p, p.structs[i].fields, 0) {
            Ok(_) => fields_valid(p, i + 1),
            Err(d) => Err(d),
        }
    }
}

/// The types from `i` on have definitions.
pub open spec fn types_valid(p: ProgramV, ts: Seq<Ty>, span: Span, i: int) -> Result<(), DiagV>
    decreases ts.len() - i,
{
    if !(0 <= i < ts.len()) {
        Ok(())
    } else {
        match valid_type(p, ts[i], span) {
            Ok(_) => types_valid(p, ts, span, i + 1),
            Err(d) => Err(d),
        }
    }
}

/// The types in the payloads of the variants from `j` on have definitions.
pub open spec fn variants_valid(p: ProgramV, vs: Seq<EnumVariantV>, j: int) -> Result<(), DiagV>
    decreases vs.len() - j,
{
    if !(0 <= j < vs.len()) {
        Ok(())
    } else {
        match types_valid(p, vs[j].fields, vs[j].span, 0) {
            Ok(_) => variants_valid(p, vs, j + 1),
            Err(d) => Err(d),
        }
    }
}

/// The types in the payloads of the sum types from `i` on have definitions.
pub open spec fn payloads_valid(p: ProgramV, i: int) -> Result<(), DiagV>
    decreases p.enums.len() - i,
{
    if !(0 <= i < p.enums.len()) {
        Ok(())
    } else {
        match variants_valid(p, p.enums[i].variants, 0) {
            Ok(_) => payloads_valid(p, i + 1),
            Err(d) => Err(d),
        }
    }
}

/// The functions from `i` on have names of their own and types that have definitions.
pub open spec fn funcs_ok(p: ProgramV, i: int) -> Result<(), DiagV>
    decreases p.funcs.len() - i,
{
    if !(0 <= i < p.funcs.len()) {
        Ok(())
    } else {
        let f = p.funcs[i];
        if is_reserved(f.name) || struct_named(p, f.name) is Some || enum_named(p, f.name) is Some
            || variant_named(p, f.name) is Some {
            Err(
                diag(
                    "E0302"@,
                    f.name + " は型名・組み込み関数なので関数名に使えません"@,
                    f.span,
                ),
            )
        } else if func_index(p, f.name, 0) < i {
            Err(diag("E0103"@, "関数 "@ + f.name + " が二重に定義されています"@, f.span))
        } else {
            match params_valid(p, f.params, 0) {
                Ok(_) => match valid_type(p, f.ret, f.span) {
                    Ok(_) => funcs_ok(p, i + 1),
                    Err(d) => Err(d),
                },
                Err(d) => Err(d),
            }
        }
    }
}

/// The variables of a function before its body: its parameters.
pub open spec fn param_env(p: ProgramV, ps: Seq<ParamV>) -> Seq<(Seq<char>, Ty)> {
    Seq::new(ps.len(), |i: int| (ps[i].name, resolve(p, ps[i].ty)))
}

/// The parameters from `i` on have names of their own.
pub open spec fn params_distinct(ps: Seq<ParamV>, i: int) -> Result<(), DiagV>
    decreases ps.len() - i,
{
    if !(0 <= i < ps.len()) {
        Ok(())
    } else if param_index(ps, ps[i].name, 0) < i {
        Err(diag("E0301"@, "引数 "@ + ps[i].name + " が重複しています"@, ps[i].span))
    } else {
        params_distinct(ps, i + 1)
    }
}

/// The body of a function is accepted.
pub open spec fn func_ok(p: ProgramV, f: FunctionV) -> Result<(), DiagV> {
    match params_distinct(f.params, 0) {
        Ok(_) => match check_stmts(
            Place { prog: p, ret: resolve(p, f.ret), in_loop: false },
            param_env(p, f.params),
            f.body,
            0,
        ) {
            Ok(_) => Ok(()),
            Err(d) => Err(d),
        },
        Err(d) => Err(d),
    }
}

/// The bodies of the functions from `i` on are accepted.
pub open spec fn bodies_ok(p: ProgramV, i: int) -> Result<(), DiagV>
    decreases p.funcs.len() - i,
{
    if !(0 <= i < p.funcs.len()) {
        Ok(())
    } else {
        match func_ok(p, p.funcs[i]) {
            Ok(_) => bodies_ok(p, i + 1),
            Err(d) => Err(d),
        }
    }
}

/// The program has a function to start with.
pub open spec fn main_ok(p: ProgramV) -> Result<(), DiagV> {
    if func_named(p, "main"@) is Some {
        Ok(())
    } else {
        Err(
            DiagV {
                code: Some("E0100"@),
                message: "エントリポイント `fn main()` が見つかりません"@,
                span: None,
            },
        )
    }
}

/// Whether a program is accepted, and if not, its first error.
pub open spec fn checked(p: ProgramV) -> Result<(), DiagV> {
    match structs_ok(p, 0) {
        Err(d) => Err(d),
        Ok(_) => match enums_ok(p, 0) {
            Err(d) => Err(d),
            Ok(_) => match fields_valid(p, 0) {
                Err(d) => Err(d),
                Ok(_) => match payloads_valid(p, 0) {
                    Err(d) => Err(d),
                    Ok(_) => match funcs_ok(p, 0) {
                        Err(d) => Err(d),
                        Ok(_) => match main_ok(p) {
                            Err(d) => Err(d),
                            Ok(_) => bodies_ok(p, 0),
                        },
                    },
                },
            },
        },
    }
}

} // verus!
